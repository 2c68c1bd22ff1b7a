//! Differences: of the index, of a file and of a commit.

use vstd::prelude::*;
use crate::error;
use crate::git::{arguments, GitReply, GitReplyModel, GitStep, GitStepModel};
use crate::text;

verus! {

/// A difference as text.
pub struct GitDiffResult {
    pub content: String,
    pub is_binary: bool,
}

/// The mathematical form of a difference.
pub struct GitDiffModel {
    pub content: Seq<char>,
    pub is_binary: bool,
}

impl DeepView for GitDiffResult {
    type V = GitDiffModel;

    open spec fn deep_view(&self) -> GitDiffModel {
        GitDiffModel { content: self.content@, is_binary: self.is_binary }
    }
}

/// The end of an operation that shows a diff.
pub open spec fn shown(content: Seq<char>, is_binary: bool) -> GitStepModel<GitDiffModel> {
    GitStepModel::Done(Ok(GitDiffModel { content, is_binary }))
}

/// What is shown after `git` called a file binary and was asked once more
/// to treat it as text.
pub open spec fn text_retry(
    args: Seq<Seq<char>>,
    replies: Seq<GitReplyModel>,
) -> GitStepModel<GitDiffModel> {
    if replies.len() == 1 {
        GitStepModel::Run { args, raw: false }
    } else {
        match replies[1] {
            GitReplyModel::Output(out) if out.len() > 0 => shown(out, false),
            _ => shown("Binary file - diff not available"@, true),
        }
    }
}

fn show(content: String, is_binary: bool) -> (r: GitStep<GitDiffResult>)
    ensures
        r.deep_view() == shown(content@, is_binary),
{
    GitStep::Done(Ok(GitDiffResult { content, is_binary }))
}

fn retry_as_text(args: Vec<String>, replies: &Vec<GitReply>) -> (r: GitStep<GitDiffResult>)
    requires
        replies@.len() > 0,
    ensures
        r.deep_view() == text_retry(args.deep_view(), replies.deep_view()),
{
    if replies.len() == 1 {
        return GitStep::Run { args, raw: false };
    }
    match &replies[1] {
        GitReply::Output(out) => {
            if out.as_str().unicode_len() > 0 {
                return show(out.clone(), false);
            }
        },
        GitReply::Failed(_) => {},
    }
    show("Binary file - diff not available".to_string(), true)
}

fn says_binary(out: &String) -> (r: bool)
    ensures
        r == text::occurs(out@, "Binary files"@),
{
    let chars = text::chars_of(out.as_str());
    text::contains_str(chars.as_slice(), "Binary files")
}

/// The difference between the index and the last commit.
pub fn get_staged_diff(replies: &Vec<GitReply>) -> (r: GitStep<String>)
    ensures
        r.deep_view() == (if replies.deep_view().len() == 0 {
            GitStepModel::Run { args: seq!["diff"@, "--cached"@], raw: false }
        } else {
            match replies.deep_view()[0] {
                GitReplyModel::Output(out) => GitStepModel::Done(Ok(out)),
                GitReplyModel::Failed(e) => GitStepModel::Done(Err(e)),
            }
        }),
{
    if replies.len() == 0 {
        let args = arguments(&["diff", "--cached"]);
        proof {
            assert(args.deep_view() =~= seq!["diff"@, "--cached"@]);
        }
        return GitStep::Run { args, raw: false };
    }
    match &replies[0] {
        GitReply::Output(out) => GitStep::Done(Ok(out.clone())),
        GitReply::Failed(e) => GitStep::Done(Err(e.duplicate())),
    }
}

/// The next step of showing the difference of a file. A file that `git`
/// takes for binary is shown as text where that gives anything; a file
/// without a difference in the working tree is shown as a new file.
pub open spec fn file_diff_step(
    path: Seq<char>,
    staged: bool,
    replies: Seq<GitReplyModel>,
) -> GitStepModel<GitDiffModel> {
    if replies.len() == 0 {
        GitStepModel::Run {
            args: if staged {
                seq!["diff"@, "--cached"@, "--"@, path]
            } else {
                seq!["diff"@, "--"@, path]
            },
            raw: false,
        }
    } else {
        match replies[0] {
            GitReplyModel::Failed(e) => shown(error::error_text(e), false),
            GitReplyModel::Output(out) => if text::occurs(out, "Binary files"@) {
                text_retry(
                    if staged {
                        seq!["diff"@, "--cached"@, "--text"@, "--"@, path]
                    } else {
                        seq!["diff"@, "--text"@, "--"@, path]
                    },
                    replies,
                )
            } else if !staged && out.len() == 0 {
                if replies.len() == 1 {
                    GitStepModel::Run {
                        args: seq!["diff"@, "--no-index"@, "--text"@, "/dev/null"@, path],
                        raw: true,
                    }
                } else {
                    match replies[1] {
                        GitReplyModel::Output(full) if full.len() > 0 => shown(full, false),
                        _ => shown(out, false),
                    }
                }
            } else {
                shown(out, false)
            },
        }
    }
}

/// Shows the difference of a file.
pub fn get_file_diff(file_path: &str, staged: bool, replies: &Vec<GitReply>) -> (r: GitStep<
    GitDiffResult,
>)
    ensures
        r.deep_view() == file_diff_step(file_path@, staged, replies.deep_view()),
{
    if replies.len() == 0 {
        let args = if staged {
            arguments(&["diff", "--cached", "--", file_path])
        } else {
            arguments(&["diff", "--", file_path])
        };
        proof {
            assert(args.deep_view() =~= if staged {
                seq!["diff"@, "--cached"@, "--"@, file_path@]
            } else {
                seq!["diff"@, "--"@, file_path@]
            });
        }
        return GitStep::Run { args, raw: false };
    }
    match &replies[0] {
        GitReply::Failed(e) => show(e.text(), false),
        GitReply::Output(out) => {
            if says_binary(out) {
                let args = if staged {
                    arguments(&["diff", "--cached", "--text", "--", file_path])
                } else {
                    arguments(&["diff", "--text", "--", file_path])
                };
                proof {
                    assert(args.deep_view() =~= if staged {
                        seq!["diff"@, "--cached"@, "--text"@, "--"@, file_path@]
                    } else {
                        seq!["diff"@, "--text"@, "--"@, file_path@]
                    });
                }
                return retry_as_text(args, replies);
            }
            if !staged && out.as_str().unicode_len() == 0 {
                if replies.len() == 1 {
                    let args = arguments(&["diff", "--no-index", "--text", "/dev/null", file_path]);
                    proof {
                        assert(args.deep_view() =~= seq![
                            "diff"@,
                            "--no-index"@,
                            "--text"@,
                            "/dev/null"@,
                            file_path@,
                        ]);
                    }
                    return GitStep::Run { args, raw: true };
                }
                match &replies[1] {
                    GitReply::Output(full) => {
                        if full.as_str().unicode_len() > 0 {
                            return show(full.clone(), false);
                        }
                    },
                    GitReply::Failed(_) => {},
                }
            }
            show(out.clone(), false)
        },
    }
}

/// The next step of showing what a commit changed.
pub open spec fn shown_commit_step(
    is_repo: bool,
    args: Seq<Seq<char>>,
    text_args: Seq<Seq<char>>,
    replies: Seq<GitReplyModel>,
) -> GitStepModel<GitDiffModel> {
    if !is_repo {
        shown(Seq::empty(), false)
    } else if replies.len() == 0 {
        GitStepModel::Run { args, raw: false }
    } else {
        match replies[0] {
            GitReplyModel::Failed(e) => shown(error::error_text(e), false),
            GitReplyModel::Output(out) => if text::occurs(out, "Binary files"@) {
                text_retry(text_args, replies)
            } else {
                shown(out, false)
            },
        }
    }
}

fn show_commit(
    is_repo: bool,
    args: Vec<String>,
    text_args: Vec<String>,
    replies: &Vec<GitReply>,
) -> (r: GitStep<GitDiffResult>)
    ensures
        r.deep_view() == shown_commit_step(
            is_repo,
            args.deep_view(),
            text_args.deep_view(),
            replies.deep_view(),
        ),
{
    if !is_repo {
        let none = String::new();
        proof {
            assert(none@ =~= Seq::<char>::empty());
        }
        return show(none, false);
    }
    if replies.len() == 0 {
        return GitStep::Run { args, raw: false };
    }
    match &replies[0] {
        GitReply::Failed(e) => show(e.text(), false),
        GitReply::Output(out) => {
            if says_binary(out) {
                retry_as_text(text_args, replies)
            } else {
                show(out.clone(), false)
            }
        },
    }
}

/// Shows what a commit changed.
pub fn get_commit_diff(is_repo: bool, hash: &str, replies: &Vec<GitReply>) -> (r: GitStep<
    GitDiffResult,
>)
    ensures
        r.deep_view() == shown_commit_step(
            is_repo,
            seq!["show"@, "--format="@, "--find-renames"@, "--no-ext-diff"@, hash@],
            seq!["show"@, "--format="@, "--text"@, "--no-ext-diff"@, hash@],
            replies.deep_view(),
        ),
{
    let args = arguments(&["show", "--format=", "--find-renames", "--no-ext-diff", hash]);
    let text_args = arguments(&["show", "--format=", "--text", "--no-ext-diff", hash]);
    proof {
        assert(args.deep_view() =~= seq![
            "show"@,
            "--format="@,
            "--find-renames"@,
            "--no-ext-diff"@,
            hash@,
        ]);
        assert(text_args.deep_view() =~= seq![
            "show"@,
            "--format="@,
            "--text"@,
            "--no-ext-diff"@,
            hash@,
        ]);
    }
    show_commit(is_repo, args, text_args, replies)
}

/// Shows what a commit changed in one file.
pub fn get_commit_file_diff(
    is_repo: bool,
    hash: &str,
    file_path: &str,
    replies: &Vec<GitReply>,
) -> (r: GitStep<GitDiffResult>)
    ensures
        r.deep_view() == shown_commit_step(
            is_repo,
            seq![
                "show"@,
                "--format="@,
                "--find-renames"@,
                "--no-ext-diff"@,
                hash@,
                "--"@,
                file_path@,
            ],
            seq!["show"@, "--format="@, "--text"@, "--no-ext-diff"@, hash@, "--"@, file_path@],
            replies.deep_view(),
        ),
{
    let args = arguments(
        &["show", "--format=", "--find-renames", "--no-ext-diff", hash, "--", file_path],
    );
    let text_args = arguments(
        &["show", "--format=", "--text", "--no-ext-diff", hash, "--", file_path],
    );
    proof {
        assert(args.deep_view() =~= seq![
            "show"@,
            "--format="@,
            "--find-renames"@,
            "--no-ext-diff"@,
            hash@,
            "--"@,
            file_path@,
        ]);
        assert(text_args.deep_view() =~= seq![
            "show"@,
            "--format="@,
            "--text"@,
            "--no-ext-diff"@,
            hash@,
            "--"@,
            file_path@,
        ]);
    }
    show_commit(is_repo, args, text_args, replies)
}

} // verus!
