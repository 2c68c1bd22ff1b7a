//! Changing a repository: staging, committing, exchanging with a remote and
//! switching branches.

use vstd::prelude::*;
use vstd::slice::slice_subrange;
use crate::error;
use crate::git::{arguments, GitReply, GitReplyModel, GitStep, GitStepModel};
use crate::text;

verus! {

/// The mathematical form of an outcome: whether it succeeded, and what is
/// shown.
pub struct OutcomeModel {
    pub success: bool,
    pub message: Seq<char>,
}

/// The outcome of staging, unstaging or discarding.
pub struct GitStageResult {
    pub success: bool,
    pub message: String,
}

impl DeepView for GitStageResult {
    type V = OutcomeModel;

    open spec fn deep_view(&self) -> OutcomeModel {
        OutcomeModel { success: self.success, message: self.message@ }
    }
}

/// The outcome of an exchange with a remote.
pub struct GitPushPullResult {
    pub success: bool,
    pub message: String,
}

impl DeepView for GitPushPullResult {
    type V = OutcomeModel;

    open spec fn deep_view(&self) -> OutcomeModel {
        OutcomeModel { success: self.success, message: self.message@ }
    }
}

/// The outcome of switching branches.
pub struct GitCheckoutResult {
    pub success: bool,
    pub message: String,
}

impl DeepView for GitCheckoutResult {
    type V = OutcomeModel;

    open spec fn deep_view(&self) -> OutcomeModel {
        OutcomeModel { success: self.success, message: self.message@ }
    }
}

/// The outcome of a commit.
pub struct GitCommitResult {
    pub success: bool,
    pub message: String,
    pub hash: Option<String>,
}

/// The mathematical form of the outcome of a commit.
pub struct GitCommitModel {
    pub success: bool,
    pub message: Seq<char>,
    pub hash: Option<Seq<char>>,
}

impl DeepView for GitCommitResult {
    type V = GitCommitModel;

    open spec fn deep_view(&self) -> GitCommitModel {
        GitCommitModel {
            success: self.success,
            message: self.message@,
            hash: self.hash.deep_view(),
        }
    }
}

/// An operation that ended with the given outcome.
pub open spec fn ended(success: bool, message: Seq<char>) -> GitStepModel<OutcomeModel> {
    GitStepModel::Done(Ok(OutcomeModel { success, message }))
}

/// The outcome of one run: the given message, or the error's text.
pub open spec fn ended_with(reply: GitReplyModel, message: Seq<char>) -> GitStepModel<OutcomeModel> {
    match reply {
        GitReplyModel::Output(_) => ended(true, message),
        GitReplyModel::Failed(e) => ended(false, error::error_text(e)),
    }
}

/// An operation of one run of `git`.
pub open spec fn single_run(
    args: Seq<Seq<char>>,
    message: Seq<char>,
    replies: Seq<GitReplyModel>,
) -> GitStepModel<OutcomeModel> {
    if replies.len() == 0 {
        GitStepModel::Run { args, raw: false }
    } else {
        ended_with(replies[0], message)
    }
}

fn stage_done(success: bool, message: String) -> (r: GitStep<GitStageResult>)
    ensures
        r.deep_view() == ended(success, message@),
{
    GitStep::Done(Ok(GitStageResult { success, message }))
}

fn stage_end(reply: &GitReply, message: &str) -> (r: GitStep<GitStageResult>)
    ensures
        r.deep_view() == ended_with(reply.deep_view(), message@),
{
    match reply {
        GitReply::Output(_) => stage_done(true, message.to_string()),
        GitReply::Failed(e) => stage_done(false, e.text()),
    }
}

fn exchange_done(success: bool, message: String) -> (r: GitStep<GitPushPullResult>)
    ensures
        r.deep_view() == ended(success, message@),
{
    GitStep::Done(Ok(GitPushPullResult { success, message }))
}

fn exchange_end(reply: &GitReply, message: &str) -> (r: GitStep<GitPushPullResult>)
    ensures
        r.deep_view() == ended_with(reply.deep_view(), message@),
{
    match reply {
        GitReply::Output(_) => exchange_done(true, message.to_string()),
        GitReply::Failed(e) => exchange_done(false, e.text()),
    }
}

fn checkout_end(reply: &GitReply, message: &[char]) -> (r: GitStep<GitCheckoutResult>)
    ensures
        r.deep_view() == ended_with(reply.deep_view(), message@),
{
    match reply {
        GitReply::Output(_) => GitStep::Done(
            Ok(GitCheckoutResult { success: true, message: text::string_of(message) }),
        ),
        GitReply::Failed(e) => GitStep::Done(
            Ok(GitCheckoutResult { success: false, message: e.text() }),
        ),
    }
}

/// A list of arguments followed by paths.
fn with_paths(first: &[&str], paths: &Vec<String>) -> (out: Vec<String>)
    ensures
        out.deep_view() == Seq::new(first@.len(), |i: int| first@[i]@) + paths.deep_view(),
{
    let mut out = arguments(first);
    let ghost start = out.deep_view();
    proof {
        assert(start + paths.deep_view().take(0) =~= start);
    }
    let mut i: usize = 0;
    while i < paths.len()
        invariant
            i <= paths@.len(),
            out.deep_view() == start + paths.deep_view().take(i as int),
        decreases paths@.len() - i,
    {
        let ghost before = out.deep_view();
        let path = paths[i].clone();
        out.push(path);
        proof {
            assert(out.deep_view() =~= before.push(path@));
            assert(paths.deep_view()[i as int] == path@);
            assert(out.deep_view() =~= start + paths.deep_view().take(i + 1));
        }
        i += 1;
    }
    proof {
        assert(paths.deep_view().take(i as int) =~= paths.deep_view());
    }
    out
}

// ---------------------------------------------------------------------
// Staging
// ---------------------------------------------------------------------

/// The next step of staging files.
pub open spec fn stage_step(paths: Seq<Seq<char>>, replies: Seq<GitReplyModel>) -> GitStepModel<
    OutcomeModel,
> {
    if paths.len() == 0 {
        ended(true, "No files to stage"@)
    } else {
        single_run(seq!["add"@, "--"@] + paths, "Files staged successfully"@, replies)
    }
}

/// Stages files.
pub fn stage_files(file_paths: &Vec<String>, replies: &Vec<GitReply>) -> (r: GitStep<
    GitStageResult,
>)
    ensures
        r.deep_view() == stage_step(file_paths.deep_view(), replies.deep_view()),
{
    if file_paths.len() == 0 {
        return stage_done(true, "No files to stage".to_string());
    }
    if replies.len() == 0 {
        let args = with_paths(&["add", "--"], file_paths);
        proof {
            assert(args.deep_view() =~= seq!["add"@, "--"@] + file_paths.deep_view());
        }
        return GitStep::Run { args, raw: false };
    }
    stage_end(&replies[0], "Files staged successfully")
}

/// The next step of unstaging files.
pub open spec fn unstage_step(paths: Seq<Seq<char>>, replies: Seq<GitReplyModel>) -> GitStepModel<
    OutcomeModel,
> {
    if paths.len() == 0 {
        ended(true, "No files to unstage"@)
    } else {
        single_run(seq!["reset"@, "HEAD"@, "--"@] + paths, "Files unstaged successfully"@, replies)
    }
}

/// Takes files out of the index.
pub fn unstage_files(file_paths: &Vec<String>, replies: &Vec<GitReply>) -> (r: GitStep<
    GitStageResult,
>)
    ensures
        r.deep_view() == unstage_step(file_paths.deep_view(), replies.deep_view()),
{
    if file_paths.len() == 0 {
        return stage_done(true, "No files to unstage".to_string());
    }
    if replies.len() == 0 {
        let args = with_paths(&["reset", "HEAD", "--"], file_paths);
        proof {
            assert(args.deep_view() =~= seq!["reset"@, "HEAD"@, "--"@] + file_paths.deep_view());
        }
        return GitStep::Run { args, raw: false };
    }
    stage_end(&replies[0], "Files unstaged successfully")
}

/// Stages every change.
pub fn stage_all(replies: &Vec<GitReply>) -> (r: GitStep<GitStageResult>)
    ensures
        r.deep_view() == single_run(
            seq!["add"@, "--all"@],
            "All changes staged"@,
            replies.deep_view(),
        ),
{
    if replies.len() == 0 {
        let args = arguments(&["add", "--all"]);
        proof {
            assert(args.deep_view() =~= seq!["add"@, "--all"@]);
        }
        return GitStep::Run { args, raw: false };
    }
    stage_end(&replies[0], "All changes staged")
}

/// Takes every change out of the index.
pub fn unstage_all(replies: &Vec<GitReply>) -> (r: GitStep<GitStageResult>)
    ensures
        r.deep_view() == single_run(
            seq!["reset"@, "HEAD"@],
            "All changes unstaged"@,
            replies.deep_view(),
        ),
{
    if replies.len() == 0 {
        let args = arguments(&["reset", "HEAD"]);
        proof {
            assert(args.deep_view() =~= seq!["reset"@, "HEAD"@]);
        }
        return GitStep::Run { args, raw: false };
    }
    stage_end(&replies[0], "All changes unstaged")
}

// ---------------------------------------------------------------------
// Committing
// ---------------------------------------------------------------------

/// The short form of a commit's name: its first eight bytes, or all of a
/// shorter one. A name whose eighth byte lies inside a character has none.
pub open spec fn short_hash(out: Seq<char>) -> Option<Seq<char>> {
    let t = text::trimmed(out);
    if text::byte_len(t) >= 8 {
        match text::index_at_byte(t, 8) {
            Some(i) => Some(t.take(i)),
            None => None,
        }
    } else {
        Some(t)
    }
}

/// The next step of a commit. `None` stands for a commit whose printed name
/// cannot be cut.
pub open spec fn commit_step(message: Seq<char>, replies: Seq<GitReplyModel>) -> Option<
    GitStepModel<GitCommitModel>,
> {
    if text::trimmed(message).len() == 0 {
        Some(
            GitStepModel::Done(
                Ok(
                    GitCommitModel {
                        success: false,
                        message: "Commit message is required"@,
                        hash: None,
                    },
                ),
            ),
        )
    } else if replies.len() == 0 {
        Some(GitStepModel::Run { args: seq!["commit"@, "-m"@, message], raw: false })
    } else {
        match replies[0] {
            GitReplyModel::Failed(e) => Some(
                GitStepModel::Done(
                    Ok(
                        GitCommitModel {
                            success: false,
                            message: error::error_text(e),
                            hash: None,
                        },
                    ),
                ),
            ),
            GitReplyModel::Output(_) => if replies.len() == 1 {
                Some(GitStepModel::Run { args: seq!["rev-parse"@, "HEAD"@], raw: false })
            } else {
                match replies[1] {
                    GitReplyModel::Output(out) if short_hash(out) is None => None,
                    GitReplyModel::Output(out) => Some(
                        GitStepModel::Done(
                            Ok(
                                GitCommitModel {
                                    success: true,
                                    message: "Commit successful"@,
                                    hash: short_hash(out),
                                },
                            ),
                        ),
                    ),
                    GitReplyModel::Failed(_) => Some(
                        GitStepModel::Done(
                            Ok(
                                GitCommitModel {
                                    success: true,
                                    message: "Commit successful"@,
                                    hash: None,
                                },
                            ),
                        ),
                    ),
                }
            },
        }
    }
}

/// Cuts the name of a commit.
pub fn cut_hash(out: &str) -> (r: Option<String>)
    ensures
        r.deep_view() == short_hash(out@),
{
    let chars = text::chars_of(out);
    let t = text::trim(chars.as_slice());
    if text::takes_bytes(t, 8) {
        match text::char_index(t, 8) {
            Some(i) => {
                let cut = slice_subrange(t, 0, i);
                proof {
                    assert(cut@ =~= t@.take(i as int));
                }
                Some(text::string_of(cut))
            },
            None => None,
        }
    } else {
        Some(text::string_of(t))
    }
}

fn commit_done(success: bool, message: String, hash: Option<String>) -> (r: Option<
    GitStep<GitCommitResult>,
>)
    ensures
        r.deep_view() == Some(
            GitStepModel::<GitCommitModel>::Done(
                Ok(GitCommitModel { success, message: message@, hash: hash.deep_view() }),
            ),
        ),
{
    Some(GitStep::Done(Ok(GitCommitResult { success, message, hash })))
}

/// Commits what is staged.
pub fn commit_changes(message: &str, replies: &Vec<GitReply>) -> (r: Option<
    GitStep<GitCommitResult>,
>)
    ensures
        r.deep_view() == commit_step(message@, replies.deep_view()),
{
    let chars = text::chars_of(message);
    if text::trim(chars.as_slice()).len() == 0 {
        return commit_done(false, "Commit message is required".to_string(), None);
    }
    if replies.len() == 0 {
        let args = arguments(&["commit", "-m", message]);
        proof {
            assert(args.deep_view() =~= seq!["commit"@, "-m"@, message@]);
        }
        return Some(GitStep::Run { args, raw: false });
    }
    match &replies[0] {
        GitReply::Failed(e) => commit_done(false, e.text(), None),
        GitReply::Output(_) => {
            if replies.len() == 1 {
                let args = arguments(&["rev-parse", "HEAD"]);
                proof {
                    assert(args.deep_view() =~= seq!["rev-parse"@, "HEAD"@]);
                }
                return Some(GitStep::Run { args, raw: false });
            }
            match &replies[1] {
                GitReply::Output(out) => match cut_hash(out.as_str()) {
                    Some(hash) => commit_done(true, "Commit successful".to_string(), Some(hash)),
                    None => None,
                },
                GitReply::Failed(_) => commit_done(true, "Commit successful".to_string(), None),
            }
        },
    }
}

// ---------------------------------------------------------------------
// Exchanging with a remote
// ---------------------------------------------------------------------

/// What is shown after an exchange: what `git` printed, or else the
/// default.
pub open spec fn printed_or(out: Seq<char>, default: Seq<char>) -> Seq<char> {
    if text::trimmed(out).len() == 0 {
        default
    } else {
        text::trimmed(out)
    }
}

/// The next step of a push or a pull: what `git` printed is the message,
/// unless that is blank.
pub open spec fn exchange_step(
    command: Seq<char>,
    default: Seq<char>,
    replies: Seq<GitReplyModel>,
) -> GitStepModel<OutcomeModel> {
    if replies.len() == 0 {
        GitStepModel::Run { args: seq![command], raw: false }
    } else {
        match replies[0] {
            GitReplyModel::Output(out) => ended(true, printed_or(out, default)),
            GitReplyModel::Failed(e) => ended(false, error::error_text(e)),
        }
    }
}

fn exchange(command: &str, default: &str, replies: &Vec<GitReply>) -> (r: GitStep<
    GitPushPullResult,
>)
    ensures
        r.deep_view() == exchange_step(command@, default@, replies.deep_view()),
{
    if replies.len() == 0 {
        let args = arguments(&[command]);
        proof {
            assert(args.deep_view() =~= seq![command@]);
        }
        return GitStep::Run { args, raw: false };
    }
    match &replies[0] {
        GitReply::Output(out) => {
            let chars = text::chars_of(out.as_str());
            let t = text::trim(chars.as_slice());
            if t.len() == 0 {
                exchange_done(true, default.to_string())
            } else {
                exchange_done(true, text::string_of(t))
            }
        },
        GitReply::Failed(e) => exchange_done(false, e.text()),
    }
}

/// Sends commits to the remote.
pub fn push_changes(replies: &Vec<GitReply>) -> (r: GitStep<GitPushPullResult>)
    ensures
        r.deep_view() == exchange_step("push"@, "Push successful"@, replies.deep_view()),
{
    exchange("push", "Push successful", replies)
}

/// Takes commits from the remote.
pub fn pull_changes(replies: &Vec<GitReply>) -> (r: GitStep<GitPushPullResult>)
    ensures
        r.deep_view() == exchange_step("pull"@, "Pull successful"@, replies.deep_view()),
{
    exchange("pull", "Pull successful", replies)
}

/// The next step of a fetch. Where `git` fails, its message is reported.
pub open spec fn fetch_step(is_repo: bool, replies: Seq<GitReplyModel>) -> GitStepModel<
    OutcomeModel,
> {
    if !is_repo {
        ended(false, "Not a git repository"@)
    } else if replies.len() == 0 {
        GitStepModel::Run { args: seq!["remote"@], raw: false }
    } else {
        match replies[0] {
            GitReplyModel::Failed(_) => ended_with(replies[0], "Fetch successful"@),
            GitReplyModel::Output(out) => if text::trimmed(out).len() == 0 {
                ended(false, "No remote configured"@)
            } else if replies.len() == 1 {
                GitStepModel::Run { args: seq!["fetch"@, "--quiet"@, "--prune"@], raw: false }
            } else {
                ended_with(replies[1], "Fetch successful"@)
            },
        }
    }
}

/// Fetching is never an error: what fails is reported in the result, and so
/// is a missing remote. Success is reported only where the fetch was run and
/// did not fail.
pub proof fn law_fetching_is_no_error(is_repo: bool, replies: Seq<GitReplyModel>)
    ensures
        fetch_step(is_repo, replies) matches GitStepModel::Done(r) ==> r is Ok && (r->Ok_0.success
            ==> replies.len() >= 2 && replies[1] is Output),
{
}

/// Updates what is known of the remote without merging. A repository
/// without a remote is left alone, which is no success.
pub fn fetch_remote(is_repo: bool, replies: &Vec<GitReply>) -> (r: GitStep<GitPushPullResult>)
    ensures
        r.deep_view() == fetch_step(is_repo, replies.deep_view()),
{
    if !is_repo {
        return exchange_done(false, "Not a git repository".to_string());
    }
    if replies.len() == 0 {
        let args = arguments(&["remote"]);
        proof {
            assert(args.deep_view() =~= seq!["remote"@]);
        }
        return GitStep::Run { args, raw: false };
    }
    match &replies[0] {
        GitReply::Failed(_) => exchange_end(&replies[0], "Fetch successful"),
        GitReply::Output(out) => {
            let chars = text::chars_of(out.as_str());
            if text::trim(chars.as_slice()).len() == 0 {
                return exchange_done(false, "No remote configured".to_string());
            }
            if replies.len() == 1 {
                let args = arguments(&["fetch", "--quiet", "--prune"]);
                proof {
                    assert(args.deep_view() =~= seq!["fetch"@, "--quiet"@, "--prune"@]);
                }
                return GitStep::Run { args, raw: false };
            }
            exchange_end(&replies[1], "Fetch successful")
        },
    }
}

// ---------------------------------------------------------------------
// Branches
// ---------------------------------------------------------------------

/// The local name of a remote branch: what follows the first slash, unless
/// that is empty.
pub open spec fn local_name(branch: Seq<char>) -> Option<Seq<char>> {
    match text::find_char(branch, '/') {
        Some(i) => if i + 1 < branch.len() {
            Some(branch.skip(i + 1))
        } else {
            None
        },
        None => None,
    }
}

/// The next step of switching to a branch. For a remote branch the local
/// branch of its name is tried first; where there is none, one is created
/// that follows the remote branch.
pub open spec fn checkout_step(branch: Seq<char>, replies: Seq<GitReplyModel>) -> GitStepModel<
    OutcomeModel,
> {
    match local_name(branch) {
        None => single_run(seq!["checkout"@, branch], "Switched to "@ + branch, replies),
        Some(local) => if replies.len() == 0 {
            GitStepModel::Run { args: seq!["checkout"@, local], raw: false }
        } else if replies[0] is Output {
            ended(true, "Switched to "@ + local)
        } else if replies.len() == 1 {
            GitStepModel::Run { args: seq!["checkout"@, "-b"@, local, branch], raw: false }
        } else {
            ended_with(replies[1], "Switched to "@ + local + " (tracking "@ + branch + ")"@)
        },
    }
}

/// Switches to a branch.
pub fn checkout_branch(branch_name: &str, replies: &Vec<GitReply>) -> (r: GitStep<
    GitCheckoutResult,
>)
    ensures
        r.deep_view() == checkout_step(branch_name@, replies.deep_view()),
{
    let branch = text::chars_of(branch_name);
    let total: usize = branch.len();
    match text::position_char(branch.as_slice(), '/') {
        Some(i) => {
            if i + 1 < total {
                let local_chars = slice_subrange(branch.as_slice(), i + 1, total);
                proof {
                    assert(local_chars@ =~= branch@.skip(i + 1));
                }
                let local = text::string_of(local_chars);
                if replies.len() == 0 {
                    let args = arguments(&["checkout", local.as_str()]);
                    proof {
                        assert(args.deep_view() =~= seq!["checkout"@, local@]);
                    }
                    return GitStep::Run { args, raw: false };
                }
                let mut message = text::chars_of("Switched to ");
                text::append(&mut message, local_chars);
                if let GitReply::Output(_) = &replies[0] {
                    return checkout_end(&replies[0], message.as_slice());
                }
                if replies.len() == 1 {
                    let args = arguments(&["checkout", "-b", local.as_str(), branch_name]);
                    proof {
                        assert(args.deep_view() =~= seq![
                            "checkout"@,
                            "-b"@,
                            local@,
                            branch_name@,
                        ]);
                    }
                    return GitStep::Run { args, raw: false };
                }
                text::append_str(&mut message, " (tracking ");
                text::append(&mut message, branch.as_slice());
                text::append_str(&mut message, ")");
                return checkout_end(&replies[1], message.as_slice());
            }
        },
        None => {},
    }
    if replies.len() == 0 {
        let args = arguments(&["checkout", branch_name]);
        proof {
            assert(args.deep_view() =~= seq!["checkout"@, branch_name@]);
        }
        return GitStep::Run { args, raw: false };
    }
    let mut message = text::chars_of("Switched to ");
    text::append(&mut message, branch.as_slice());
    checkout_end(&replies[0], message.as_slice())
}

/// Creates a branch at the current commit and switches to it.
pub fn create_branch(branch_name: &str, replies: &Vec<GitReply>) -> (r: GitStep<GitCheckoutResult>)
    ensures
        r.deep_view() == single_run(
            seq!["checkout"@, "-b"@, branch_name@],
            "Created and switched to "@ + branch_name@,
            replies.deep_view(),
        ),
{
    if replies.len() == 0 {
        let args = arguments(&["checkout", "-b", branch_name]);
        proof {
            assert(args.deep_view() =~= seq!["checkout"@, "-b"@, branch_name@]);
        }
        return GitStep::Run { args, raw: false };
    }
    let mut message = text::chars_of("Created and switched to ");
    text::append_str(&mut message, branch_name);
    checkout_end(&replies[0], message.as_slice())
}

// ---------------------------------------------------------------------
// Discarding changes
// ---------------------------------------------------------------------

/// Whether an entry of `git status -z` can be taken apart: its second and
/// third bytes end characters.
pub open spec fn entry_ok(entry: Seq<char>) -> bool {
    text::index_at_byte(entry, 2) is Some && text::index_at_byte(entry, 3) is Some
}

/// The path of an entry.
pub open spec fn entry_path(entry: Seq<char>) -> Seq<char> {
    text::without_leading(entry.skip(text::index_at_byte(entry, 3)->0), '"')
}

/// The entries of the output of `git status -z`.
pub open spec fn entries(out: Seq<char>) -> Seq<Seq<char>> {
    text::split_char(out, '\0').filter(|e: Seq<char>| e.len() > 0)
}

/// The paths of the entries that were asked for, either the untracked ones
/// or the others.
pub open spec fn matching(
    all: Seq<Seq<char>>,
    paths: Seq<Seq<char>>,
    untracked: bool,
) -> Seq<Seq<char>> {
    all.filter_map(
        |e: Seq<char>|
            if paths.contains(entry_path(e)) && (e[0] == '?') == untracked {
                Some(entry_path(e))
            } else {
                None
            },
    )
}

/// The paths asked for that are in neither list, each once, in the order in
/// which they were asked for.
pub open spec fn unlisted(
    paths: Seq<Seq<char>>,
    untracked: Seq<Seq<char>>,
    known: Seq<Seq<char>>,
) -> Seq<Seq<char>>
    decreases paths.len(),
{
    if paths.len() == 0 {
        Seq::empty()
    } else {
        let before = unlisted(paths.drop_last(), untracked, known);
        let path = paths.last();
        if untracked.contains(path) || known.contains(path) || before.contains(path) {
            before
        } else {
            before.push(path)
        }
    }
}

/// The untracked files to remove.
pub open spec fn to_remove(out: Seq<char>, paths: Seq<Seq<char>>) -> Seq<Seq<char>> {
    matching(entries(out), paths, true)
}

/// The files to bring back: the files that Git knows, and those that `git status`
/// does not report.
pub open spec fn to_bring_back(out: Seq<char>, paths: Seq<Seq<char>>) -> Seq<Seq<char>> {
    let known = matching(entries(out), paths, false);
    known + unlisted(paths, to_remove(out, paths), known)
}

/// Whether all entries can be taken apart.
pub open spec fn entries_ok(out: Seq<char>) -> bool {
    forall|i: int| 0 <= i < entries(out).len() ==> entry_ok(#[trigger] entries(out)[i])
}

/// The next step of discarding changes. `None` stands for output of
/// `git status` that cannot be taken apart.
pub open spec fn discard_step(paths: Seq<Seq<char>>, replies: Seq<GitReplyModel>) -> Option<
    GitStepModel<OutcomeModel>,
> {
    if paths.len() == 0 {
        Some(ended(true, "No files to discard"@))
    } else if replies.len() == 0 {
        Some(
            GitStepModel::Run {
                args: seq!["status"@, "--porcelain"@, "-z"@, "-uall"@],
                raw: false,
            },
        )
    } else {
        match replies[0] {
            GitReplyModel::Failed(e) => Some(ended(false, error::error_text(e))),
            GitReplyModel::Output(out) => if !entries_ok(out) {
                None
            } else {
                Some(discard_known(to_bring_back(out, paths), to_remove(out, paths), replies.skip(1)))
            },
        }
    }
}

/// The steps after the files are sorted: files that Git knows are brought back
/// first, then untracked ones are removed; the first failure ends it.
pub open spec fn discard_known(
    known: Seq<Seq<char>>,
    untracked: Seq<Seq<char>>,
    replies: Seq<GitReplyModel>,
) -> GitStepModel<OutcomeModel> {
    if known.len() > 0 && replies.len() == 0 {
        GitStepModel::Run { args: seq!["checkout"@, "--"@] + known, raw: false }
    } else {
        let rest = if known.len() > 0 {
            replies.skip(1)
        } else {
            replies
        };
        if known.len() > 0 && replies[0] is Failed {
            ended(false, error::error_text(replies[0]->Failed_0))
        } else if untracked.len() == 0 {
            ended(true, "Changes discarded successfully"@)
        } else if rest.len() == 0 {
            GitStepModel::Run { args: seq!["clean"@, "-f"@, "--"@] + untracked, raw: false }
        } else {
            ended_with(rest[0], "Changes discarded successfully"@)
        }
    }
}

/// Whether a list of strings holds a text.
pub fn holds_text(list: &Vec<String>, what: &[char]) -> (r: bool)
    ensures
        r == list.deep_view().contains(what@),
{
    let mut i: usize = 0;
    while i < list.len()
        invariant
            i <= list@.len(),
            forall|j: int| 0 <= j < i ==> list.deep_view()[j] != what@,
        decreases list@.len() - i,
    {
        let chars = text::chars_of(list[i].as_str());
        if text::same(chars.as_slice(), what) {
            proof {
                assert(list.deep_view()[i as int] == what@);
            }
            return true;
        }
        i += 1;
    }
    false
}

/// Sorts the files to discard into those to bring back and those to remove.
pub fn sort_discarded(out: &str, paths: &Vec<String>) -> (r: Option<(Vec<String>, Vec<String>)>)
    ensures
        match r {
            Some((known, untracked)) => entries_ok(out@) && known.deep_view() == to_bring_back(
                out@,
                paths.deep_view(),
            ) && untracked.deep_view() == to_remove(out@, paths.deep_view()),
            None => !entries_ok(out@),
        },
{
    let chars = text::chars_of(out);
    let pieces = text::split_at_char(chars.as_slice(), '\0');
    let ghost all = text::texts(pieces@);
    let ghost wanted = paths.deep_view();
    let ghost p = |e: Seq<char>| e.len() > 0;
    let ghost fu = |e: Seq<char>|
        if wanted.contains(entry_path(e)) && (e[0] == '?') == true {
            Some(entry_path(e))
        } else {
            None
        };
    let ghost ft = |e: Seq<char>|
        if wanted.contains(entry_path(e)) && (e[0] == '?') == false {
            Some(entry_path(e))
        } else {
            None
        };
    let mut known: Vec<String> = Vec::new();
    let mut untracked: Vec<String> = Vec::new();
    proof {
        assert(all.take(0).filter(p) =~= Seq::<Seq<char>>::empty());
        assert(known.deep_view() =~= all.take(0).filter(p).filter_map(ft));
        assert(untracked.deep_view() =~= all.take(0).filter(p).filter_map(fu));
    }
    let mut i: usize = 0;
    while i < pieces.len()
        invariant
            i <= pieces@.len(),
            all == text::texts(pieces@),
            all == text::split_char(out@, '\0'),
            wanted == paths.deep_view(),
            p == (|e: Seq<char>| e.len() > 0),
            fu == (|e: Seq<char>|
                if wanted.contains(entry_path(e)) && (e[0] == '?') == true {
                    Some(entry_path(e))
                } else {
                    None
                }),
            ft == (|e: Seq<char>|
                if wanted.contains(entry_path(e)) && (e[0] == '?') == false {
                    Some(entry_path(e))
                } else {
                    None
                }),
            known.deep_view() == all.take(i as int).filter(p).filter_map(ft),
            untracked.deep_view() == all.take(i as int).filter(p).filter_map(fu),
            forall|j: int|
                0 <= j < all.take(i as int).filter(p).len() ==> entry_ok(
                    #[trigger] all.take(i as int).filter(p)[j],
                ),
        decreases pieces@.len() - i,
    {
        let entry = pieces[i].as_slice();
        let ghost before = all.take(i as int).filter(p);
        let ghost after = all.take(i + 1).filter(p);
        proof {
            reveal_with_fuel(Seq::filter, 2);
            assert(all.take(i + 1).drop_last() =~= all.take(i as int));
            assert(all.take(i + 1).last() == entry@);
            assert(all.take(i + 1).is_prefix_of(all)) by {
                assert(all.take(i + 1) =~= all.subrange(0, i + 1));
            }
            all.take(i + 1).lemma_filter_monotone(all, p);
        }
        if entry.len() > 0 {
            proof {
                assert(after == before.push(entry@));
                assert(after.drop_last() =~= before);
                assert(after.last() == entry@);
                assert(after.is_prefix_of(all.filter(p)));
                assert(entries(out@) == all.filter(p));
                assert(entries(out@)[before.len() as int] == entry@);
            }
            let two = text::char_index(entry, 2);
            if two.is_none() {
                return None;
            }
            let start: usize = match text::char_index(entry, 3) {
                Some(k) => k,
                None => {
                    return None;
                },
            };
            let rest = slice_subrange(entry, start, entry.len());
            proof {
                assert(rest@ =~= entry@.skip(start as int));
            }
            let path = text::trim_start_char(rest, '"');
            let ghost was_tracked = known.deep_view();
            let ghost was_untracked = untracked.deep_view();
            if holds_text(paths, path) {
                if entry[0] == '?' {
                    let s = text::string_of(path);
                    untracked.push(s);
                    proof {
                        assert(untracked.deep_view() =~= was_untracked + seq![s@]);
                    }
                } else {
                    let s = text::string_of(path);
                    known.push(s);
                    proof {
                        assert(known.deep_view() =~= was_tracked + seq![s@]);
                    }
                }
            }
        }
        i += 1;
    }
    let ghost listed = known.deep_view();
    proof {
        assert(all.take(i as int) =~= all);
        assert(entries(out@) == all.filter(p));
        assert(matching(entries(out@), wanted, true) == untracked.deep_view());
        assert(matching(entries(out@), wanted, false) == listed);
        assert(listed + unlisted(wanted.take(0), untracked.deep_view(), listed) =~= listed);
    }
    let ghost removed = untracked.deep_view();
    let mut k: usize = 0;
    while k < paths.len()
        invariant
            k <= paths@.len(),
            wanted == paths.deep_view(),
            untracked.deep_view() == removed,
            known.deep_view() == listed + unlisted(wanted.take(k as int), removed, listed),
        decreases paths@.len() - k,
    {
        let path = text::chars_of(paths[k].as_str());
        let ghost before = unlisted(wanted.take(k as int), removed, listed);
        proof {
            assert(wanted.take(k + 1).drop_last() =~= wanted.take(k as int));
            assert(wanted.take(k + 1).last() == path@);
            assert((listed + before).contains(path@) == (listed.contains(path@) || before.contains(
                path@,
            ))) by {
                lemma_contains_concat(listed, before, path@);
            }
        }
        if !holds_text(&untracked, path.as_slice()) && !holds_text(&known, path.as_slice()) {
            let s = paths[k].clone();
            known.push(s);
            proof {
                assert(known.deep_view() =~= (listed + before).push(path@));
                assert((listed + before).push(path@) =~= listed + before.push(path@));
            }
        }
        k += 1;
    }
    proof {
        assert(wanted.take(k as int) =~= wanted);
    }
    Some((known, untracked))
}

proof fn lemma_contains_concat(a: Seq<Seq<char>>, b: Seq<Seq<char>>, x: Seq<char>)
    ensures
        (a + b).contains(x) == (a.contains(x) || b.contains(x)),
{
    if a.contains(x) {
        let i = choose|i: int| 0 <= i < a.len() && a[i] == x;
        assert((a + b)[i] == x);
    }
    if b.contains(x) {
        let i = choose|i: int| 0 <= i < b.len() && b[i] == x;
        assert((a + b)[a.len() + i] == x);
    }
}

/// Discards the changes of files: untracked files are removed, all others
/// are brought back to their committed state.
pub fn discard_changes(file_paths: &Vec<String>, replies: &Vec<GitReply>) -> (r: Option<
    GitStep<GitStageResult>,
>)
    ensures
        r.deep_view() == discard_step(file_paths.deep_view(), replies.deep_view()),
{
    if file_paths.len() == 0 {
        return Some(stage_done(true, "No files to discard".to_string()));
    }
    if replies.len() == 0 {
        let args = arguments(&["status", "--porcelain", "-z", "-uall"]);
        proof {
            assert(args.deep_view() =~= seq!["status"@, "--porcelain"@, "-z"@, "-uall"@]);
        }
        return Some(GitStep::Run { args, raw: false });
    }
    let out: &String = match &replies[0] {
        GitReply::Failed(e) => {
            return Some(stage_done(false, e.text()));
        },
        GitReply::Output(out) => out,
    };
    let (known, untracked) = match sort_discarded(out.as_str(), file_paths) {
        Some(lists) => lists,
        None => {
            return None;
        },
    };
    let mut used: usize = 1;
    if known.len() > 0 {
        if replies.len() == 1 {
            let args = with_paths(&["checkout", "--"], &known);
            proof {
                assert(args.deep_view() =~= seq!["checkout"@, "--"@] + known.deep_view());
            }
            return Some(GitStep::Run { args, raw: false });
        }
        if let GitReply::Failed(e) = &replies[1] {
            return Some(stage_done(false, e.text()));
        }
        used = 2;
    }
    if untracked.len() > 0 {
        if replies.len() == used {
            let args = with_paths(&["clean", "-f", "--"], &untracked);
            proof {
                assert(args.deep_view() =~= seq!["clean"@, "-f"@, "--"@] + untracked.deep_view());
            }
            return Some(GitStep::Run { args, raw: false });
        }
        return Some(stage_end(&replies[used], "Changes discarded successfully"));
    }
    Some(stage_done(true, "Changes discarded successfully".to_string()))
}

} // verus!
