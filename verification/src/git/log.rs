//! Branches, history and the files of a commit.

use vstd::prelude::*;
use vstd::slice::slice_subrange;
use crate::git::{arguments, GitReply, GitReplyModel, GitStep, GitStepModel};
use crate::text;

verus! {

// ---------------------------------------------------------------------
// Branches
// ---------------------------------------------------------------------

/// A branch, local or remote.
pub struct GitBranch {
    pub name: String,
    pub is_current: bool,
    pub is_remote: bool,
    pub remote_name: Option<String>,
}

/// The mathematical form of a branch.
pub struct GitBranchModel {
    pub name: Seq<char>,
    pub is_current: bool,
    pub is_remote: bool,
    pub remote_name: Option<Seq<char>>,
}

impl DeepView for GitBranch {
    type V = GitBranchModel;

    open spec fn deep_view(&self) -> GitBranchModel {
        GitBranchModel {
            name: self.name@,
            is_current: self.is_current,
            is_remote: self.is_remote,
            remote_name: self.remote_name.deep_view(),
        }
    }
}

/// The branch that a line of `git branch` reports: a star marks the current
/// one, the first word is its name, and what stands before a slash in the
/// name is its remote. The entry `HEAD` is no branch.
pub open spec fn branch_entry(line: Seq<char>) -> Option<GitBranchModel> {
    let t = text::trimmed(line);
    let is_current = t.len() > 0 && t[0] == '*';
    let names = text::words(
        if is_current {
            text::trimmed_start(t.skip(1))
        } else {
            t
        },
    );
    if names.len() == 0 || names[0] == "HEAD"@ {
        None
    } else {
        let slash = text::find_char(names[0], '/');
        Some(
            GitBranchModel {
                name: names[0],
                is_current,
                is_remote: slash is Some,
                remote_name: match slash {
                    Some(i) => Some(names[0].take(i)),
                    None => None,
                },
            },
        )
    }
}

/// The branches that the output of `git branch` reports.
pub open spec fn branch_entries(out: Seq<char>) -> Seq<GitBranchModel> {
    text::lines(out).filter_map(|line: Seq<char>| branch_entry(line))
}

/// Reads a line of `git branch`.
pub fn read_branch_line(line: &[char]) -> (r: Option<GitBranch>)
    ensures
        r.deep_view() == branch_entry(line@),
{
    let t = text::trim(line);
    let is_current = t.len() > 0 && t[0] == '*';
    let rest: &[char] = if is_current {
        let tail = slice_subrange(t, 1, t.len());
        proof {
            assert(tail@ =~= t@.skip(1));
        }
        text::trim_start(tail)
    } else {
        t
    };
    let names = text::words_of(rest);
    if names.len() == 0 {
        return None;
    }
    let name = names[0].as_slice();
    proof {
        assert(text::texts(names@)[0] == name@);
    }
    if text::equals(name, "HEAD") {
        return None;
    }
    let slash = text::position_char(name, '/');
    let remote_name: Option<String> = match slash {
        Some(i) => {
            let remote = slice_subrange(name, 0, i);
            proof {
                assert(remote@ =~= name@.take(i as int));
            }
            Some(text::string_of(remote))
        },
        None => None,
    };
    Some(
        GitBranch {
            name: text::string_of(name),
            is_current,
            is_remote: slash.is_some(),
            remote_name,
        },
    )
}

/// Reads the output of `git branch`.
pub fn read_branches(out: &str) -> (r: Vec<GitBranch>)
    ensures
        r.deep_view() == branch_entries(out@),
{
    let chars = text::chars_of(out);
    let lines = text::lines_of(chars.as_slice());
    let ghost all = text::texts(lines@);
    let ghost f = |line: Seq<char>| branch_entry(line);
    let mut r: Vec<GitBranch> = Vec::new();
    proof {
        assert(r.deep_view() =~= all.take(0).filter_map(f));
    }
    let mut i: usize = 0;
    while i < lines.len()
        invariant
            i <= lines@.len(),
            all == text::texts(lines@),
            f == (|line: Seq<char>| branch_entry(line)),
            r.deep_view() == all.take(i as int).filter_map(f),
        decreases lines@.len() - i,
    {
        let ghost before = r.deep_view();
        proof {
            all.lemma_filter_map_take_succ(f, i as int);
            assert(all[i as int] == lines@[i as int]@);
        }
        match read_branch_line(lines[i].as_slice()) {
            Some(b) => {
                r.push(b);
                proof {
                    assert(r.deep_view() =~= before + seq![b.deep_view()]);
                }
            },
            None => {
                assert(before + Seq::empty() =~= before);
            },
        }
        i += 1;
    }
    proof {
        assert(all.take(i as int) =~= all);
    }
    r
}

/// The next step of listing the branches.
pub open spec fn branches_step(is_repo: bool, replies: Seq<GitReplyModel>) -> GitStepModel<
    Seq<GitBranchModel>,
> {
    if !is_repo {
        GitStepModel::Done(Ok(Seq::empty()))
    } else if replies.len() == 0 {
        GitStepModel::Run {
            args: seq![
                "branch"@,
                "--list"@,
                "--all"@,
                "--format=%(HEAD)%(refname:short) %(objectname:short) %(upstream:short)"@,
            ],
            raw: false,
        }
    } else {
        match replies[0] {
            GitReplyModel::Output(out) => GitStepModel::Done(Ok(branch_entries(out))),
            GitReplyModel::Failed(e) => GitStepModel::Done(Err(e)),
        }
    }
}

/// Lists the branches of a repository.
pub fn get_git_branches(is_repo: bool, replies: &Vec<GitReply>) -> (r: GitStep<Vec<GitBranch>>)
    ensures
        r.deep_view() == branches_step(is_repo, replies.deep_view()),
{
    if !is_repo {
        let none: Vec<GitBranch> = Vec::new();
        proof {
            assert(none.deep_view() =~= Seq::<GitBranchModel>::empty());
        }
        return GitStep::Done(Ok(none));
    }
    if replies.len() == 0 {
        let args = arguments(
            &[
                "branch",
                "--list",
                "--all",
                "--format=%(HEAD)%(refname:short) %(objectname:short) %(upstream:short)",
            ],
        );
        proof {
            assert(args.deep_view() =~= seq![
                "branch"@,
                "--list"@,
                "--all"@,
                "--format=%(HEAD)%(refname:short) %(objectname:short) %(upstream:short)"@,
            ]);
        }
        return GitStep::Run { args, raw: false };
    }
    match &replies[0] {
        GitReply::Output(out) => GitStep::Done(Ok(read_branches(out.as_str()))),
        GitReply::Failed(e) => GitStep::Done(Err(e.duplicate())),
    }
}

// ---------------------------------------------------------------------
// History
// ---------------------------------------------------------------------

/// One commit of the history.
pub struct GitLogEntry {
    pub hash: String,
    pub short_hash: String,
    pub author: String,
    pub email: String,
    pub date: String,
    pub message: String,
    pub refs: String,
    pub parents: Vec<String>,
    pub additions: i32,
    pub deletions: i32,
}

/// The mathematical form of a commit.
pub struct GitLogEntryModel {
    pub hash: Seq<char>,
    pub short_hash: Seq<char>,
    pub author: Seq<char>,
    pub email: Seq<char>,
    pub date: Seq<char>,
    pub message: Seq<char>,
    pub refs: Seq<char>,
    pub parents: Seq<Seq<char>>,
    pub additions: i32,
    pub deletions: i32,
}

impl DeepView for GitLogEntry {
    type V = GitLogEntryModel;

    open spec fn deep_view(&self) -> GitLogEntryModel {
        GitLogEntryModel {
            hash: self.hash@,
            short_hash: self.short_hash@,
            author: self.author@,
            email: self.email@,
            date: self.date@,
            message: self.message@,
            refs: self.refs@,
            parents: self.parents.deep_view(),
            additions: self.additions,
            deletions: self.deletions,
        }
    }
}

/// The last number that stands before an occurrence of the keyword, or
/// `seen` where none does.
pub open spec fn count_before(rest: Seq<char>, keyword: Seq<char>, seen: i32) -> i32
    decreases rest.len(),
{
    match text::find(rest, keyword) {
        Some(i) => if 0 <= i && keyword.len() > 0 && i + keyword.len() <= rest.len() {
            let digits = text::trailing_digits(text::trimmed_end(rest.take(i)));
            count_before(
                rest.skip(i + keyword.len()),
                keyword,
                match text::digits_as_i32(digits) {
                    Some(n) => n,
                    None => seen,
                },
            )
        } else {
            seen
        },
        None => seen,
    }
}

/// Reads the number before a keyword in a `--shortstat` line, such as the 5
/// of "1 file changed, 5 insertions(+)" for "insertion". Without the
/// keyword it is 0.
pub fn parse_shortstat_count(line: &[char], keyword: &str) -> (r: i32)
    requires
        keyword@.len() > 0,
    ensures
        r == count_before(line@, keyword@, 0),
{
    let key = text::chars_of(keyword);
    let mut result: i32 = 0;
    let mut rest: &[char] = line;
    loop
        invariant
            key@ == keyword@,
            key@.len() > 0,
            count_before(line@, keyword@, 0) == count_before(rest@, keyword@, result),
        decreases rest@.len(),
    {
        let total: usize = rest.len();
        match text::position(rest, key.as_slice()) {
            None => {
                return result;
            },
            Some(i) => {
                let before = slice_subrange(rest, 0, i);
                proof {
                    assert(before@ =~= rest@.take(i as int));
                }
                let digits = text::end_digits(text::trim_end(before));
                match text::read_i32(digits) {
                    Some(n) => {
                        result = n;
                    },
                    None => {},
                }
                let next = slice_subrange(rest, i + key.len(), total);
                proof {
                    assert(next@ =~= rest@.skip(i + key@.len()));
                }
                rest = next;
            },
        }
    }
}

/// The commit whose fields are given.
pub open spec fn log_entry(parts: Seq<Seq<char>>) -> GitLogEntryModel {
    GitLogEntryModel {
        hash: parts[0],
        short_hash: parts[1],
        author: parts[2],
        email: parts[3],
        date: parts[4],
        message: parts[5],
        refs: parts[6],
        parents: text::words(parts[7]),
        additions: 0,
        deletions: 0,
    }
}

/// The commits that lines of `git log` report. A line of eight fields is a
/// commit; any other line that is not empty counts the lines added and
/// removed by the commit before it.
pub open spec fn log_entries(lines: Seq<Seq<char>>) -> Seq<GitLogEntryModel>
    decreases lines.len(),
{
    if lines.len() == 0 {
        Seq::empty()
    } else {
        let before = log_entries(lines.drop_last());
        let line = lines.last();
        let parts = text::split_char(line, '\u{1f}');
        if line.len() == 0 {
            before
        } else if parts.len() >= 8 {
            before.push(log_entry(parts))
        } else if before.len() > 0 {
            before.update(
                before.len() - 1,
                GitLogEntryModel {
                    additions: count_before(line, "insertion"@, 0),
                    deletions: count_before(line, "deletion"@, 0),
                    ..before.last()
                },
            )
        } else {
            before
        }
    }
}

/// The strings of a list of texts.
pub(crate) fn strings_of(parts: &Vec<Vec<char>>) -> (out: Vec<String>)
    ensures
        out.deep_view() == text::texts(parts@),
{
    let mut out: Vec<String> = Vec::new();
    let mut i: usize = 0;
    while i < parts.len()
        invariant
            i <= parts@.len(),
            out@.len() == i,
            forall|j: int| 0 <= j < i ==> (#[trigger] out@[j])@ == parts@[j]@,
        decreases parts@.len() - i,
    {
        out.push(text::string_of(parts[i].as_slice()));
        i += 1;
    }
    proof {
        assert(out.deep_view() =~= text::texts(parts@));
    }
    out
}

/// Reads the output of `git log`.
pub fn read_log(out: &str) -> (r: Vec<GitLogEntry>)
    ensures
        r.deep_view() == log_entries(text::lines(out@)),
{
    let chars = text::chars_of(out);
    let lines = text::lines_of(chars.as_slice());
    let ghost all = text::texts(lines@);
    let mut r: Vec<GitLogEntry> = Vec::new();
    proof {
        assert(r.deep_view() =~= log_entries(all.take(0)));
    }
    let mut i: usize = 0;
    while i < lines.len()
        invariant
            i <= lines@.len(),
            all == text::texts(lines@),
            r.deep_view() == log_entries(all.take(i as int)),
        decreases lines@.len() - i,
    {
        let ghost before = r.deep_view();
        let line = lines[i].as_slice();
        proof {
            assert(all.take(i + 1).drop_last() =~= all.take(i as int));
            assert(all.take(i + 1).last() == line@);
        }
        if line.len() > 0 {
            let parts = text::split_at_char(line, '\u{1f}');
            let ghost fields = text::texts(parts@);
            assert(fields == text::split_char(line@, '\u{1f}'));
            if parts.len() >= 8 {
                let entry = GitLogEntry {
                    hash: text::string_of(parts[0].as_slice()),
                    short_hash: text::string_of(parts[1].as_slice()),
                    author: text::string_of(parts[2].as_slice()),
                    email: text::string_of(parts[3].as_slice()),
                    date: text::string_of(parts[4].as_slice()),
                    message: text::string_of(parts[5].as_slice()),
                    refs: text::string_of(parts[6].as_slice()),
                    parents: strings_of(&text::words_of(parts[7].as_slice())),
                    additions: 0,
                    deletions: 0,
                };
                r.push(entry);
                proof {
                    assert(r.deep_view() =~= before.push(entry.deep_view()));
                    assert(entry.deep_view() == log_entry(fields));
                }
            } else if r.len() > 0 {
                proof {
                    reveal_strlit("insertion");
                    reveal_strlit("deletion");
                }
                let additions: i32 = parse_shortstat_count(line, "insertion");
                let deletions: i32 = parse_shortstat_count(line, "deletion");
                let ghost n = r@.len() - 1;
                match r.pop() {
                    Some(mut entry) => {
                        let ghost was = entry.deep_view();
                        entry.additions = additions;
                        entry.deletions = deletions;
                        r.push(entry);
                        proof {
                            assert(was == before[n]);
                            assert(r.deep_view() =~= before.update(n, entry.deep_view()));
                        }
                    },
                    None => {},
                }
            }
        }
        i += 1;
    }
    proof {
        assert(all.take(i as int) =~= all);
    }
    r
}

/// The next step of reading the history: without a positive limit, 50
/// commits; a negative offset is none.
pub open spec fn log_step(
    is_repo: bool,
    skip: int,
    limit: int,
    replies: Seq<GitReplyModel>,
) -> GitStepModel<Seq<GitLogEntryModel>> {
    if !is_repo {
        GitStepModel::Done(Ok(Seq::empty()))
    } else if replies.len() == 0 {
        GitStepModel::Run {
            args: seq![
                "log"@,
                "--all"@,
                "--decorate=full"@,
                "--shortstat"@,
                "--pretty=format:%H%x1f%h%x1f%an%x1f%ae%x1f%ad%x1f%s%x1f%D%x1f%P"@,
                "--date=iso"@,
                "--skip"@,
                text::decimal(
                    if skip > 0 {
                        skip as nat
                    } else {
                        0
                    },
                ),
                "--max-count"@,
                text::decimal(
                    if limit <= 0 {
                        50
                    } else {
                        limit as nat
                    },
                ),
            ],
            raw: true,
        }
    } else {
        match replies[0] {
            GitReplyModel::Output(out) => GitStepModel::Done(Ok(log_entries(text::lines(out)))),
            GitReplyModel::Failed(e) => GitStepModel::Done(Err(e)),
        }
    }
}

/// Reads the history of a repository.
pub fn get_git_log(is_repo: bool, skip: i32, limit: i32, replies: &Vec<GitReply>) -> (r: GitStep<
    Vec<GitLogEntry>,
>)
    ensures
        r.deep_view() == log_step(is_repo, skip as int, limit as int, replies.deep_view()),
{
    if !is_repo {
        let none: Vec<GitLogEntry> = Vec::new();
        proof {
            assert(none.deep_view() =~= Seq::<GitLogEntryModel>::empty());
        }
        return GitStep::Done(Ok(none));
    }
    if replies.len() == 0 {
        let skip_count: u64 = if skip > 0 {
            skip as u64
        } else {
            0
        };
        let max_count: u64 = if limit <= 0 {
            50
        } else {
            limit as u64
        };
        let skip_text = text::string_of(text::write_u64(skip_count).as_slice());
        let max_text = text::string_of(text::write_u64(max_count).as_slice());
        let args = arguments(
            &[
                "log",
                "--all",
                "--decorate=full",
                "--shortstat",
                "--pretty=format:%H%x1f%h%x1f%an%x1f%ae%x1f%ad%x1f%s%x1f%D%x1f%P",
                "--date=iso",
                "--skip",
                skip_text.as_str(),
                "--max-count",
                max_text.as_str(),
            ],
        );
        proof {
            assert(args.deep_view() =~= log_step(
                is_repo,
                skip as int,
                limit as int,
                replies.deep_view(),
            )->args);
        }
        return GitStep::Run { args, raw: true };
    }
    match &replies[0] {
        GitReply::Output(out) => GitStep::Done(Ok(read_log(out.as_str()))),
        GitReply::Failed(e) => GitStep::Done(Err(e.duplicate())),
    }
}

// ---------------------------------------------------------------------
// The files of a commit
// ---------------------------------------------------------------------

/// A file that a commit changed.
pub struct GitCommitFile {
    pub path: String,
    pub status: String,
}

/// The mathematical form of a changed file.
pub struct GitCommitFileModel {
    pub path: Seq<char>,
    pub status: Seq<char>,
}

impl DeepView for GitCommitFile {
    type V = GitCommitFileModel;

    open spec fn deep_view(&self) -> GitCommitFileModel {
        GitCommitFileModel { path: self.path@, status: self.status@ }
    }
}

/// The file of a `--name-status` line: its status, a tab, its path.
pub open spec fn commit_file(line: Seq<char>) -> Option<GitCommitFileModel> {
    match text::find_char(line, '\t') {
        Some(i) => Some(GitCommitFileModel { status: line.take(i), path: line.skip(i + 1) }),
        None => None,
    }
}

/// The files that the output of `git diff-tree --name-status` reports.
pub open spec fn commit_files(out: Seq<char>) -> Seq<GitCommitFileModel> {
    text::lines(out).filter_map(|line: Seq<char>| commit_file(line))
}

/// Reads the output of `git diff-tree --name-status`.
pub fn read_commit_files(out: &str) -> (r: Vec<GitCommitFile>)
    ensures
        r.deep_view() == commit_files(out@),
{
    let chars = text::chars_of(out);
    let lines = text::lines_of(chars.as_slice());
    let ghost all = text::texts(lines@);
    let ghost f = |line: Seq<char>| commit_file(line);
    let mut r: Vec<GitCommitFile> = Vec::new();
    proof {
        assert(r.deep_view() =~= all.take(0).filter_map(f));
    }
    let mut i: usize = 0;
    while i < lines.len()
        invariant
            i <= lines@.len(),
            all == text::texts(lines@),
            f == (|line: Seq<char>| commit_file(line)),
            r.deep_view() == all.take(i as int).filter_map(f),
        decreases lines@.len() - i,
    {
        let ghost before = r.deep_view();
        let line = lines[i].as_slice();
        let total: usize = line.len();
        proof {
            all.lemma_filter_map_take_succ(f, i as int);
            assert(all[i as int] == line@);
        }
        match text::position_char(line, '\t') {
            Some(k) => {
                let status = slice_subrange(line, 0, k);
                let path = slice_subrange(line, k + 1, total);
                let file = GitCommitFile {
                    status: text::string_of(status),
                    path: text::string_of(path),
                };
                r.push(file);
                proof {
                    assert(status@ =~= line@.take(k as int));
                    assert(path@ =~= line@.skip(k + 1));
                    assert(r.deep_view() =~= before + seq![file.deep_view()]);
                }
            },
            None => {
                assert(before + Seq::empty() =~= before);
            },
        }
        i += 1;
    }
    proof {
        assert(all.take(i as int) =~= all);
    }
    r
}

/// The next step of listing the files of a commit.
pub open spec fn commit_files_step(
    is_repo: bool,
    hash: Seq<char>,
    replies: Seq<GitReplyModel>,
) -> GitStepModel<Seq<GitCommitFileModel>> {
    if !is_repo {
        GitStepModel::Done(Ok(Seq::empty()))
    } else if replies.len() == 0 {
        GitStepModel::Run {
            args: seq!["diff-tree"@, "--no-commit-id"@, "--name-status"@, "-r"@, hash],
            raw: true,
        }
    } else {
        match replies[0] {
            GitReplyModel::Output(out) => GitStepModel::Done(Ok(commit_files(out))),
            GitReplyModel::Failed(e) => GitStepModel::Done(Err(e)),
        }
    }
}

/// Lists the files that a commit changed.
pub fn get_commit_files(is_repo: bool, hash: &str, replies: &Vec<GitReply>) -> (r: GitStep<
    Vec<GitCommitFile>,
>)
    ensures
        r.deep_view() == commit_files_step(is_repo, hash@, replies.deep_view()),
{
    if !is_repo {
        let none: Vec<GitCommitFile> = Vec::new();
        proof {
            assert(none.deep_view() =~= Seq::<GitCommitFileModel>::empty());
        }
        return GitStep::Done(Ok(none));
    }
    if replies.len() == 0 {
        let args = arguments(&["diff-tree", "--no-commit-id", "--name-status", "-r", hash]);
        proof {
            assert(args.deep_view() =~= seq![
                "diff-tree"@,
                "--no-commit-id"@,
                "--name-status"@,
                "-r"@,
                hash@,
            ]);
        }
        return GitStep::Run { args, raw: true };
    }
    match &replies[0] {
        GitReply::Output(out) => GitStep::Done(Ok(read_commit_files(out.as_str()))),
        GitReply::Failed(e) => GitStep::Done(Err(e.duplicate())),
    }
}

} // verus!
