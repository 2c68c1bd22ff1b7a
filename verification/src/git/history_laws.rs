//! What is read of branches, commits and their files, in terms of the
//! characters that `git` printed.

use vstd::prelude::*;
use crate::git::laws;
use crate::git::laws::whole_lines;
use crate::git::log;
use crate::git::{GitReplyModel, GitStepModel};
use crate::text;
use crate::text_laws;

verus! {

// ---------------------------------------------------------------------
// Branches
// ---------------------------------------------------------------------

/// Whether a text is one word.
pub open spec fn is_word(s: Seq<char>) -> bool {
    s.len() > 0 && forall|i: int| 0 <= i < s.len() ==> !text::white(#[trigger] s[i])
}

/// What is left of a text in front of which a word stands, when white space
/// at its end is taken away, still has the word in front.
proof fn lemma_word_stays(word: Seq<char>, rest: Seq<char>)
    requires
        is_word(word),
        rest.len() == 0 || text::white(rest[0]),
    ensures
        ({
            let t = text::trimmed_end(word + rest);
            &&& word.len() <= t.len()
            &&& t == word + t.skip(word.len() as int)
            &&& t.len() == word.len() || text::white(t[word.len() as int])
            &&& text::words(t).len() > 0
            &&& text::words(t)[0] == word
        }),
    decreases rest.len(),
{
    let s = word + rest;
    let n = word.len() as int;
    text_laws::law_trimming(s);
    if rest.len() > 0 && text::white(rest.last()) {
        assert(s.last() == rest.last());
        assert(s.drop_last() =~= word + rest.drop_last());
        lemma_word_stays(word, rest.drop_last());
    } else {
        if rest.len() == 0 {
            assert(s =~= word);
            assert(!text::white(word[n - 1]));
        } else {
            assert(s.last() == rest.last());
        }
        let t = text::trimmed_end(s);
        assert(t == s);
        assert(t =~= word + t.skip(n));
        assert(t.skip(n) =~= rest);
        text_laws::law_words_read_back(Seq::empty(), word, rest);
        assert(Seq::<char>::empty() + word + rest =~= s);
    }
}

/// A line about a branch names it by its first word, which a star may stand
/// before: the branch that is checked out. The part of the name before its
/// first slash is a remote; without a slash the branch is a local one. The
/// word `HEAD` names no branch.
pub proof fn law_branches_are_read(
    name: Seq<char>,
    remote: Seq<char>,
    local: Seq<char>,
    rest: Seq<char>,
)
    requires
        is_word(name),
        name[0] != '*',
        rest.len() == 0 || text::white(rest[0]),
    ensures
        ({
            let current = log::branch_entry(seq!['*'] + (name + rest));
            let other = log::branch_entry(seq![' '] + (name + rest));
            &&& name == "HEAD"@ ==> current is None && other is None
            &&& name != "HEAD"@ ==> {
                &&& current is Some && other is Some
                &&& current->0.name == name && other->0.name == name
                &&& current->0.is_current && !other->0.is_current
                &&& !name.contains('/') ==> !current->0.is_remote && current->0.remote_name is None
                    && !other->0.is_remote && other->0.remote_name is None
                &&& name == remote + seq!['/'] + local && !remote.contains('/')
                    ==> current->0.is_remote && current->0.remote_name == Some(remote)
                    && other->0.is_remote && other->0.remote_name == Some(remote)
            }
        }),
{
    let s = name + rest;
    let starred = seq!['*'] + s;
    let spaced = seq![' '] + s;
    lemma_word_stays(name, rest);
    let t = text::trimmed_end(s);
    assert(spaced[0] == ' ');
    assert(spaced.skip(1) =~= s);
    assert(s[0] == name[0]);
    assert(text::trimmed_start(spaced) == text::trimmed_start(s));
    assert(text::trimmed_start(s) == s);
    assert(text::trimmed(spaced) == t);
    assert(text::trimmed_start(starred) == starred);
    lemma_star_trimmed(s);
    assert(text::trimmed(starred) == seq!['*'] + t);
    assert((seq!['*'] + t).skip(1) =~= t);
    assert(t[0] == name[0]);
    assert(text::trimmed_start(t) == t);
    text_laws::lemma_first_char(name, '/');
    if name == remote + seq!['/'] + local && !remote.contains('/') {
        text_laws::law_split_takes_the_first(remote, '/', local);
        assert(name.take(remote.len() as int) =~= remote);
    }
    if text::find_char(name, '/') is Some {
        let i = text::find_char(name, '/')->0;
        assert(name[i] == '/');
        assert(name.contains('/'));
    }
}

proof fn lemma_star_trimmed(s: Seq<char>)
    requires
        s.len() > 0,
        !text::white(s[0]),
    ensures
        text::trimmed_end(seq!['*'] + s) == seq!['*'] + text::trimmed_end(s),
    decreases s.len(),
{
    let all = seq!['*'] + s;
    assert(all.last() == s.last());
    if text::white(s.last()) {
        assert(s.len() > 1);
        assert(all.drop_last() =~= seq!['*'] + s.drop_last());
        lemma_star_trimmed(s.drop_last());
    }
}

/// Every line adds the branch that it names, if it names one, behind those
/// before it.
pub proof fn law_branches_are_listed(out: Seq<char>, line: Seq<char>)
    requires
        whole_lines(out),
        text_laws::is_line(line),
    ensures
        ({
            let before = log::branch_entries(out);
            let after = log::branch_entries(out + line + seq!['\n']);
            &&& log::branch_entry(line) is None ==> after == before
            &&& log::branch_entry(line) is Some ==> after == before.push(log::branch_entry(line)->0)
        }),
{
    laws::lemma_lines_end(out, line);
    let lines = text::lines(out);
    assert(lines.push(line).drop_last() =~= lines);
    reveal_with_fuel(Seq::filter_map, 2);
}

// ---------------------------------------------------------------------
// Commits
// ---------------------------------------------------------------------

/// Whether a text can be a field of a commit: it holds neither the separator
/// of fields nor a line feed.
pub open spec fn is_field(s: Seq<char>) -> bool {
    !s.contains('\u{1f}')
}

/// The fields of a commit in one line.
pub open spec fn commit_line(
    hash: Seq<char>,
    short: Seq<char>,
    author: Seq<char>,
    email: Seq<char>,
    date: Seq<char>,
    message: Seq<char>,
    refs: Seq<char>,
    parents: Seq<char>,
) -> Seq<char> {
    let sep = seq!['\u{1f}'];
    hash + sep + (short + sep + (author + sep + (email + sep + (date + sep + (message + sep + (refs
        + sep + parents))))))
}

/// A line of eight fields is one more commit with those fields, whose
/// parents are the words of the last one, and with nothing counted yet.
pub proof fn law_commits_are_read(
    lines: Seq<Seq<char>>,
    hash: Seq<char>,
    short: Seq<char>,
    author: Seq<char>,
    email: Seq<char>,
    date: Seq<char>,
    message: Seq<char>,
    refs: Seq<char>,
    parents: Seq<char>,
)
    requires
        is_field(hash),
        is_field(short),
        is_field(author),
        is_field(email),
        is_field(date),
        is_field(message),
        is_field(refs),
        is_field(parents),
    ensures
        ({
            let line = commit_line(hash, short, author, email, date, message, refs, parents);
            let before = log::log_entries(lines);
            let after = log::log_entries(lines.push(line));
            let c = after.last();
            &&& after.len() == before.len() + 1
            &&& after.drop_last() == before
            &&& c.hash == hash
            &&& c.short_hash == short
            &&& c.author == author
            &&& c.email == email
            &&& c.date == date
            &&& c.message == message
            &&& c.refs == refs
            &&& c.parents == text::words(parents)
            &&& c.additions == 0
            &&& c.deletions == 0
        }),
{
    let sep = seq!['\u{1f}'];
    let c = '\u{1f}';
    let line = commit_line(hash, short, author, email, date, message, refs, parents);
    let r7 = refs + sep + parents;
    let r6 = message + sep + r7;
    let r5 = date + sep + r6;
    let r4 = email + sep + r5;
    let r3 = author + sep + r4;
    let r2 = short + sep + r3;
    text_laws::law_split_takes_the_first(hash, c, r2);
    text_laws::law_split_takes_the_first(short, c, r3);
    text_laws::law_split_takes_the_first(author, c, r4);
    text_laws::law_split_takes_the_first(email, c, r5);
    text_laws::law_split_takes_the_first(date, c, r6);
    text_laws::law_split_takes_the_first(message, c, r7);
    text_laws::law_split_takes_the_first(refs, c, parents);
    text_laws::law_split_takes_the_first(parents, c, Seq::empty());
    let parts = text::split_char(line, c);
    assert(parts =~= seq![hash, short, author, email, date, message, refs, parents]);
    assert(lines.push(line).drop_last() =~= lines);
    assert(line.len() > 0);
    let before = log::log_entries(lines);
    assert(log::log_entries(lines.push(line)) == before.push(log::log_entry(parts)));
    assert(before.push(log::log_entry(parts)).drop_last() =~= before);
}

/// A line that is no commit counts what the commit before it added and
/// removed, and leaves all else; an empty line, and one before the first
/// commit, say nothing.
pub proof fn law_counts_of_commits(lines: Seq<Seq<char>>, line: Seq<char>)
    requires
        !line.contains('\u{1f}'),
    ensures
        ({
            let before = log::log_entries(lines);
            let after = log::log_entries(lines.push(line));
            &&& after.len() == before.len()
            &&& line.len() == 0 ==> after == before
            &&& line.len() > 0 && before.len() > 0 ==> {
                let c = before.last();
                let d = after.last();
                &&& after.drop_last() == before.drop_last()
                &&& d.additions == log::count_before(line, "insertion"@, 0)
                &&& d.deletions == log::count_before(line, "deletion"@, 0)
                &&& d.hash == c.hash && d.short_hash == c.short_hash && d.author == c.author
                &&& d.email == c.email && d.date == c.date && d.message == c.message
                &&& d.refs == c.refs && d.parents == c.parents
            }
        }),
{
    text_laws::law_split_takes_the_first(line, '\u{1f}', Seq::empty());
    assert(lines.push(line).drop_last() =~= lines);
    let before = log::log_entries(lines);
    let after = log::log_entries(lines.push(line));
    if line.len() > 0 && before.len() > 0 {
        assert(after.drop_last() =~= before.drop_last());
    }
}

/// The count before a keyword is the number that white space parts from the
/// last such word; without the word it is what was counted before.
pub proof fn law_counts_are_read(
    front: Seq<char>,
    digits: Seq<char>,
    gap: Seq<char>,
    key: Seq<char>,
    rest: Seq<char>,
    seen: i32,
)
    requires
        key.len() > 0,
        text_laws::is_number(digits),
        text::decimal_value(digits) <= i32::MAX,
        front.len() == 0 || !('0' <= front.last() <= '9'),
        forall|i: int| 0 <= i < gap.len() ==> text::white(#[trigger] gap[i]),
        !text::occurs(front + digits + gap + key.drop_last(), key),
        !text::occurs(rest, key),
    ensures
        log::count_before(front + digits + gap + key + rest, key, seen) == text::decimal_value(
            digits,
        ),
        log::count_before(rest, key, seen) == seen,
{
    let before = front + digits + gap;
    let s = before + key + rest;
    text_laws::law_first_place(before, key, rest);
    text::lemma_find_from(rest, key, 0);
    let t = front + digits;
    assert forall|c: char| '0' <= c <= '9' implies !#[trigger] text::white(c) by {
        text_laws::law_white_space(c);
    }
    assert(t.last() == digits[digits.len() - 1]);
    lemma_trimmed_behind(t, gap);
    text_laws::law_number_at_the_end(front, digits);
    assert(s.skip(before.len() as int + key.len()) =~= rest);
    assert(log::count_before(rest, key, text::decimal_value(digits) as i32)
        == text::decimal_value(digits) as i32);
    assert(text::trailing_digits(text::trimmed_end(s.take(before.len() as int))) == digits);
}

proof fn lemma_trimmed_behind(t: Seq<char>, gap: Seq<char>)
    requires
        forall|i: int| 0 <= i < gap.len() ==> text::white(#[trigger] gap[i]),
        t.len() == 0 || !text::white(t.last()),
    ensures
        text::trimmed_end(t + gap) == t,
    decreases gap.len(),
{
    if gap.len() == 0 {
        assert(t + gap =~= t);
    } else {
        assert((t + gap).last() == gap[gap.len() - 1]);
        assert((t + gap).drop_last() =~= t + gap.drop_last());
        assert forall|i: int| 0 <= i < gap.drop_last().len() implies text::white(
            #[trigger] gap.drop_last()[i],
        ) by {
            assert(gap.drop_last()[i] == gap[i]);
        }
        lemma_trimmed_behind(t, gap.drop_last());
    }
}

/// A file of a commit is told by its state, a tab, and its path, which may
/// hold tabs; a line without a tab tells none. Each line adds its file
/// behind those before it.
pub proof fn law_files_of_commits(out: Seq<char>, state: Seq<char>, path: Seq<char>)
    requires
        whole_lines(out),
        !state.contains('\t'),
        text_laws::is_line(state + seq!['\t'] + path),
        text_laws::is_line(state),
    ensures
        ({
            let before = log::commit_files(out);
            let after = log::commit_files(out + (state + seq!['\t'] + path) + seq!['\n']);
            &&& after.len() == before.len() + 1
            &&& after.drop_last() == before
            &&& after.last().status == state
            &&& after.last().path == path
            &&& log::commit_files(out + state + seq!['\n']) == before
        }),
{
    let line = state + seq!['\t'] + path;
    let lines = text::lines(out);
    laws::lemma_lines_end(out, line);
    laws::lemma_lines_end(out, state);
    text_laws::law_split_takes_the_first(state, '\t', path);
    assert(line.take(state.len() as int) =~= state);
    assert(line.skip(state.len() as int + 1) =~= path);
    assert(lines.push(line).drop_last() =~= lines);
    assert(lines.push(state).drop_last() =~= lines);
    reveal_with_fuel(Seq::filter_map, 2);
    let before = log::commit_files(out);
    let after = log::commit_files(out + line + seq!['\n']);
    assert(after == before.push(log::commit_file(line)->0));
    assert(after.drop_last() =~= before);
}

/// The history of all branches is asked for, with the fields of a commit
/// between unit separators and with its counts, from the given place on, and
/// from the start where that is negative, with as many commits as were asked
/// for, or fifty; what `git` printed is then read. Outside a repository there
/// is none.
pub proof fn law_history_is_asked_for(
    is_repo: bool,
    skip: int,
    limit: int,
    replies: Seq<GitReplyModel>,
)
    ensures
        ({
            let step = log::log_step(is_repo, skip, limit, replies);
            let args = step->args;
            &&& !is_repo ==> (step matches GitStepModel::Done(r) && r is Ok && r->Ok_0.len() == 0)
            &&& is_repo && replies.len() == 0 ==> {
                &&& step is Run && step->raw
                &&& args.len() == 10
                &&& args[0] == "log"@
                &&& args[1] == "--all"@
                &&& args[2] == "--decorate=full"@
                &&& args[3] == "--shortstat"@
                &&& args[4] == "--pretty=format:%H%x1f%h%x1f%an%x1f%ae%x1f%ad%x1f%s%x1f%D%x1f%P"@
                &&& args[5] == "--date=iso"@
                &&& args[6] == "--skip"@
                &&& args[8] == "--max-count"@
                &&& skip >= 0 ==> text::decimal_value(args[7]) == skip
                &&& skip < 0 ==> text::decimal_value(args[7]) == 0
                &&& limit > 0 ==> text::decimal_value(args[9]) == limit
                &&& limit <= 0 ==> text::decimal_value(args[9]) == 50
            }
            &&& is_repo && replies.len() > 0 && replies[0] is Failed ==> step
                == GitStepModel::<Seq<log::GitLogEntryModel>>::Done(Err(replies[0]->Failed_0))
            &&& is_repo && replies.len() > 0 && replies[0] is Output ==> step
                == GitStepModel::Done(Ok(log::log_entries(text::lines(replies[0]->Output_0))))
        }),
{
    if skip > 0 {
        text_laws::law_decimal_reads_back(skip as nat);
    }
    text_laws::law_decimal_reads_back(0);
    text_laws::law_decimal_reads_back(50);
    if limit > 0 {
        text_laws::law_decimal_reads_back(limit as nat);
    }
}

/// The branches are asked for with those of the remotes, and the files of a
/// commit by its name, without the name in front of them; what `git` printed
/// is then read, and a failure passed on. Outside a repository there are
/// none.
pub proof fn law_branches_and_files_are_asked_for(
    is_repo: bool,
    hash: Seq<char>,
    replies: Seq<GitReplyModel>,
)
    ensures
        ({
            let step = log::branches_step(is_repo, replies);
            &&& !is_repo ==> (step matches GitStepModel::Done(r) && r is Ok && r->Ok_0.len() == 0)
            &&& is_repo && replies.len() == 0 ==> {
                &&& step is Run && !step->raw
                &&& step->args.len() == 4
                &&& step->args[0] == "branch"@
                &&& step->args.contains("--all"@)
                &&& step->args[3]
                    == "--format=%(HEAD)%(refname:short) %(objectname:short) %(upstream:short)"@
            }
            &&& is_repo && replies.len() > 0 && replies[0] is Output ==> step
                == GitStepModel::Done(Ok(log::branch_entries(replies[0]->Output_0)))
            &&& is_repo && replies.len() > 0 && replies[0] is Failed ==> step
                == GitStepModel::<Seq<log::GitBranchModel>>::Done(Err(replies[0]->Failed_0))
        }),
        ({
            let step = log::commit_files_step(is_repo, hash, replies);
            &&& !is_repo ==> (step matches GitStepModel::Done(r) && r is Ok && r->Ok_0.len() == 0)
            &&& is_repo && replies.len() == 0 ==> {
                &&& step is Run && step->raw
                &&& step->args.len() == 5
                &&& step->args[0] == "diff-tree"@
                &&& step->args.contains("--no-commit-id"@)
                &&& step->args.contains("--name-status"@)
                &&& step->args.contains("-r"@)
                &&& step->args.last() == hash
            }
            &&& is_repo && replies.len() > 0 && replies[0] is Output ==> step
                == GitStepModel::Done(Ok(log::commit_files(replies[0]->Output_0)))
            &&& is_repo && replies.len() > 0 && replies[0] is Failed ==> step
                == GitStepModel::<Seq<log::GitCommitFileModel>>::Done(Err(replies[0]->Failed_0))
        }),
{
    if is_repo && replies.len() == 0 {
        let asked = log::branches_step(is_repo, replies)->args;
        assert(asked[2] == "--all"@);
        let files = log::commit_files_step(is_repo, hash, replies)->args;
        assert(files[1] == "--no-commit-id"@ && files[2] == "--name-status"@ && files[3] == "-r"@);
    }
}

} // verus!
