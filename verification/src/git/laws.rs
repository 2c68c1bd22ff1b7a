//! What holds of what is read from the output of `git`, and of what is asked
//! of it, in terms of the characters of that output.

use vstd::prelude::*;
use crate::error;
use crate::git::status;
use crate::git::status::GitFileStatusModel;
use crate::git::{GitReplyModel, GitStepModel};
use crate::text;
use crate::text_laws;

verus! {

// ---------------------------------------------------------------------
// The state of a working tree
// ---------------------------------------------------------------------

/// Whether a text is made of whole lines.
pub open spec fn whole_lines(s: Seq<char>) -> bool {
    s.len() == 0 || s.last() == '\n'
}

/// Whether a text can follow the two letters and the space of a file line:
/// it is something, and all of it stands on one line.
pub open spec fn fills_line(s: Seq<char>) -> bool {
    s.len() > 0 && text_laws::is_line(s)
}

/// The line about a file: its letters in the index and in the working tree,
/// a space, and the rest.
pub open spec fn file_line(x: char, y: char, rest: Seq<char>) -> Seq<char> {
    seq![x, y, ' '] + rest
}

/// Whether two letters can stand in front of a file line. Two number signs
/// begin the line about the branch.
pub open spec fn are_letters(x: char, y: char) -> bool {
    x as int <= 127 && y as int <= 127 && x != '\n' && y != '\n' && !(x == '#' && y == '#')
}

/// One more line at the end of a text is one more line.
pub proof fn lemma_lines_end(out: Seq<char>, line: Seq<char>)
    requires
        whole_lines(out),
        text_laws::is_line(line),
    ensures
        text::lines(out + line + seq!['\n']) == text::lines(out).push(line),
    decreases out.len(),
{
    let s = out + line + seq!['\n'];
    if out.len() == 0 {
        text_laws::law_lines_read_back(line, Seq::empty());
        assert(s =~= line + seq!['\n'] + Seq::empty());
        assert(text::lines(s) =~= text::lines(out).push(line));
    } else {
        text_laws::lemma_first_char(out, '\n');
        text_laws::lemma_first_char(s, '\n');
        assert(out.contains(out[out.len() - 1]));
        let i = text::find_char(out, '\n')->0;
        assert(s[i] == out[i]);
        assert(s.contains(s[i]));
        let k = text::find_char(s, '\n')->0;
        if k < i {
            assert(out.take(i)[k] == s[k]);
            assert(out.take(i).contains('\n'));
        }
        if i < k {
            assert(s.take(k)[i] == s[i]);
            assert(s.take(k).contains('\n'));
        }
        let rest = out.skip(i + 1);
        if rest.len() > 0 {
            assert(rest.last() == out.last());
        }
        lemma_lines_end(rest, line);
        assert(s.take(i) =~= out.take(i));
        assert(s.skip(i + 1) =~= rest + line + seq!['\n']);
        assert(text::lines(s) =~= text::lines(out).push(line));
    }
}

proof fn lemma_is_file_line(x: char, y: char, rest: Seq<char>)
    requires
        are_letters(x, y),
        fills_line(rest),
    ensures
        text_laws::is_line(file_line(x, y, rest)),
        status::is_file_line(file_line(x, y, rest)),
        text::index_at_byte(file_line(x, y, rest), 3) == Some(3int),
        file_line(x, y, rest).skip(3) == rest,
{
    let line = file_line(x, y, rest);
    assert(line.skip(3) =~= rest);
    if line.contains('\n') {
        let j = choose|j: int| 0 <= j < line.len() && line[j] == '\n';
        assert(j >= 3 && rest[j - 3] == '\n');
    }
    assert(line.last() == rest.last());
    reveal_strlit("## ");
    if text::begins(line, "## "@) {
        assert(line.take(3)[0] == "## "@[0]);
        assert(line.take(3)[1] == "## "@[1]);
    }
    lemma_byte_len_at_least(line);
    reveal_with_fuel(text::index_at_byte, 4);
    assert(line.skip(1)[0] == y);
    assert(line.skip(1).skip(1)[0] == ' ');
    assert(text::index_at_byte(line.skip(1).skip(1).skip(1), 0) == Some(0int));
    assert(text::index_at_byte(line.skip(1).skip(1), 1) == Some(1int));
    assert(text::index_at_byte(line.skip(1), 2) == Some(2int));
}

proof fn lemma_byte_len_at_least(s: Seq<char>)
    ensures
        text::byte_len(s) >= s.len(),
    decreases s.len(),
{
    if s.len() > 0 {
        lemma_byte_len_at_least(s.drop_last());
    }
}

proof fn lemma_letters_differ(c: char)
    ensures
        seq![c] == "?"@ <==> c == '?',
        seq![c] == "!"@ <==> c == '!',
        seq![c] == " "@ <==> c == ' ',
{
    reveal_strlit("?");
    reveal_strlit("!");
    reveal_strlit(" ");
    assert(seq!['?'] =~= "?"@);
    assert(seq!['!'] =~= "!"@);
    assert(seq![' '] =~= " "@);
    assert(seq![c][0] == c);
    assert(seq!['?'][0] == '?');
    assert(seq!['!'][0] == '!');
    assert(seq![' '][0] == ' ');
}

/// How much a count grows by something that is so or is not.
pub open spec fn one_if(b: bool) -> int {
    if b {
        1
    } else {
        0
    }
}

/// Each line about a file adds that file to the list and to the counts. A
/// question mark or an exclamation mark in the second place counts it as
/// untracked and nowhere else. Otherwise it is counted as staged exactly
/// where its first letter is neither a space nor a question mark, whichever
/// other letter that is, and as unstaged exactly where its second letter is
/// no space. What the lines about the branch said stays. Once the limit is
/// reached nothing is added, and the list is reported as cut.
pub proof fn law_file_lines_are_counted(
    out: Seq<char>,
    limit: int,
    x: char,
    y: char,
    rest: Seq<char>,
)
    requires
        whole_lines(out),
        are_letters(x, y),
        fills_line(rest),
    ensures
        ({
            let before = status::status_model(out, limit);
            let after = status::status_model(out + file_line(x, y, rest) + seq!['\n'], limit);
            let added = limit <= 0 || before.files.len() < limit;
            let known = y != '?' && y != '!';
            &&& added ==> {
                &&& after.files.len() == before.files.len() + 1
                &&& after.files.drop_last() == before.files
                &&& after.files.last().index_status == seq![x]
                &&& after.files.last().workdir_status == seq![y]
                &&& after.staged_count == before.staged_count + one_if(
                    known && x != ' ' && x != '?',
                )
                &&& after.unstaged_count == before.unstaged_count + one_if(known && y != ' ')
                &&& after.untracked_count == before.untracked_count + one_if(y == '?' || y == '!')
                &&& after.status_limit_hit == before.status_limit_hit
            }
            &&& !added ==> {
                &&& after.files == before.files
                &&& after.staged_count == before.staged_count
                &&& after.unstaged_count == before.unstaged_count
                &&& after.untracked_count == before.untracked_count
                &&& after.status_limit_hit
            }
            &&& after.is_repo
            &&& after.current_branch == before.current_branch
            &&& after.upstream == before.upstream
            &&& after.ahead == before.ahead
            &&& after.behind == before.behind
        }),
{
    let line = file_line(x, y, rest);
    let lines = text::lines(out);
    let all = lines.push(line);
    lemma_is_file_line(x, y, rest);
    lemma_lines_end(out, line);
    assert(all.drop_last() =~= lines);
    assert(all.take(lines.len() as int) =~= lines);
    assert(all.take(lines.len() as int + 1) =~= all);
    status::lemma_kept_step(all, lines.len() as int, limit);
    let old_files = status::kept_files(lines, limit);
    let new_files = status::kept_files(all, limit);
    let f = status::file_status(line);
    let added = limit <= 0 || old_files.len() < limit;
    lemma_letters_differ(x);
    lemma_letters_differ(y);
    if added {
        assert(new_files =~= old_files.push(f));
        assert(new_files.drop_last() =~= old_files);
        reveal_with_fuel(Seq::filter, 2);
    } else {
        assert(new_files =~= old_files);
    }
}

/// Without output there is nothing to list and nothing to count, and no
/// branch is known.
pub proof fn law_status_of_no_output(limit: int)
    ensures
        ({
            let none = status::status_model(Seq::empty(), limit);
            &&& none.is_repo
            &&& none.files.len() == 0
            &&& none.staged_count == 0
            &&& none.unstaged_count == 0
            &&& none.untracked_count == 0
            &&& !none.status_limit_hit
            &&& none.current_branch.len() == 0
            &&& none.upstream is None
            &&& none.ahead == 0
            &&& none.behind == 0
        }),
{
    let lines = text::lines(Seq::empty());
    assert(lines =~= Seq::empty());
    assert(status::file_lines(lines) =~= Seq::empty());
    assert(status::kept_files(lines, limit) =~= Seq::empty());
}

/// Whether the letters of a file are two spaces, or a question mark and a
/// space.
pub open spec fn has_no_change(f: GitFileStatusModel) -> bool {
    f.workdir_status == seq![' '] && (f.index_status == seq![' '] || f.index_status == seq!['?'])
}

proof fn lemma_counted(files: Seq<GitFileStatusModel>)
    requires
        forall|i: int|
            0 <= i < files.len() ==> (#[trigger] files[i]).index_status.len() == 1
                && files[i].workdir_status.len() == 1,
    ensures
        files.filter(|f: GitFileStatusModel| !has_no_change(f)).len() <= status::count_files(
            files,
            |f: GitFileStatusModel| status::is_staged(f),
        ) + status::count_files(files, |f: GitFileStatusModel| status::is_unstaged(f))
            + status::count_files(files, |f: GitFileStatusModel| status::is_untracked(f)),
    decreases files.len(),
{
    reveal_with_fuel(Seq::filter, 2);
    if files.len() > 0 {
        let f = files.last();
        assert(f == files[files.len() - 1]);
        lemma_counted(files.drop_last());
        lemma_letters_differ(f.index_status[0]);
        lemma_letters_differ(f.workdir_status[0]);
        assert(f.index_status =~= seq![f.index_status[0]]);
        assert(f.workdir_status =~= seq![f.workdir_status[0]]);
    }
}

/// Every listed file is counted as staged, unstaged or untracked at least
/// once, unless its letters are two spaces, or a question mark and a space.
pub proof fn law_every_listed_file_is_counted(out: Seq<char>, limit: int)
    ensures
        ({
            let r = status::status_model(out, limit);
            r.staged_count + r.unstaged_count + r.untracked_count >= r.files.filter(
                |f: GitFileStatusModel| !has_no_change(f),
            ).len()
        }),
{
    lemma_counted(status::status_model(out, limit).files);
}

proof fn lemma_last_file(out: Seq<char>, x: char, y: char, rest: Seq<char>)
    requires
        whole_lines(out),
        are_letters(x, y),
        fills_line(rest),
    ensures
        status::status_model(out + file_line(x, y, rest) + seq!['\n'], 0).files.last()
            == status::file_status(file_line(x, y, rest)),
{
    let line = file_line(x, y, rest);
    lemma_is_file_line(x, y, rest);
    lemma_lines_end(out, line);
    let lines = text::lines(out);
    let all = lines.push(line);
    assert(all.take(lines.len() as int) =~= lines);
    assert(all.take(lines.len() as int + 1) =~= all);
    status::lemma_kept_step(all, lines.len() as int, 0);
    assert(status::kept_files(all, 0).last() == status::file_status(line));
}

/// The first arrow in a text is the one in front of which there is none.
proof fn lemma_first_arrow(rest: Seq<char>, arrow: Seq<char>, from: Seq<char>, to: Seq<char>)
    requires
        arrow == seq![' ', '-', '>', ' '],
        rest == from + arrow + to,
        !text::occurs(from + seq![' ', '-', '>'], arrow),
    ensures
        text::find(rest, arrow) == Some(from.len() as int),
        rest.take(from.len() as int) == from,
        rest.skip(from.len() as int + 4) == to,
{
    assert(arrow.drop_last() =~= seq![' ', '-', '>']);
    text_laws::law_first_place(from, arrow, to);
}

/// A file is listed under the path that stands behind its letters, without
/// quotes around it. Where an arrow stands there, the file is listed under
/// the path behind the first arrow, and the text before it is where it was.
pub proof fn law_file_lines_give_paths(
    out: Seq<char>,
    x: char,
    y: char,
    rest: Seq<char>,
    from: Seq<char>,
    to: Seq<char>,
)
    requires
        whole_lines(out),
        are_letters(x, y),
        fills_line(rest),
    ensures
        ({
            let f = status::status_model(out + file_line(x, y, rest) + seq!['\n'], 0).files.last();
            let arrow = seq![' ', '-', '>', ' '];
            let quoted = |s: Seq<char>| s.len() >= 2 && s[0] == '"' && s.last() == '"';
            &&& !text::occurs(rest, arrow) ==> {
                &&& f.old_path is None
                &&& !quoted(rest) ==> f.path == rest
                &&& rest == seq!['"'] + to + seq!['"'] ==> f.path == to
            }
            &&& rest == from + arrow + to && !text::occurs(from + seq![' ', '-', '>'], arrow) ==> {
                &&& f.old_path == Some(from)
                &&& !quoted(to) ==> f.path == to
            }
        }),
{
    let line = file_line(x, y, rest);
    let arrow = seq![' ', '-', '>', ' '];
    reveal_strlit(" -> ");
    assert(" -> "@ =~= arrow);
    lemma_is_file_line(x, y, rest);
    lemma_last_file(out, x, y, rest);
    let f = status::file_status(line);
    if !text::occurs(rest, arrow) {
        text::lemma_find_from(rest, arrow, 0);
        if rest == seq!['"'] + to + seq!['"'] {
            assert(rest.subrange(1, rest.len() - 1) =~= to);
        }
    }
    if rest == from + arrow + to && !text::occurs(from + seq![' ', '-', '>'], arrow) {
        lemma_first_arrow(rest, arrow, from, to);
    }
}

proof fn lemma_status_text(c: char)
    ensures
        status::status_text(c) == "?"@ <==> c == '?',
        status::status_text(c) == "!"@ <==> c == '!',
        status::status_text(c) == "R"@ <==> c == 'R',
        status::status_text(c) == "C"@ <==> c == 'C',
        status::status_text(c) == "A"@ <==> c == 'A',
        status::status_text(c) == "M"@ <==> c == 'M',
        status::status_text(c) == "D"@ <==> c == 'D',
        c != ' ' ==> status::status_text(c) == seq![c],
{
    reveal_strlit("?");
    reveal_strlit("!");
    reveal_strlit("R");
    reveal_strlit("C");
    reveal_strlit("A");
    reveal_strlit("M");
    reveal_strlit("D");
    assert("?"@ =~= seq!['?']);
    assert("!"@ =~= seq!['!']);
    assert("R"@ =~= seq!['R']);
    assert("C"@ =~= seq!['C']);
    assert("A"@ =~= seq!['A']);
    assert("M"@ =~= seq!['M']);
    assert("D"@ =~= seq!['D']);
    if c != ' ' {
        assert(status::status_text(c)[0] == c);
    }
}

/// A file is shown under one of its two letters: a rename or a copy always
/// as such, an untracked or ignored one as U or I, a file that was added,
/// changed or removed in the index as that, and else one that was changed or
/// removed in the working tree as that. Any other letter is shown where it
/// stands alone; two of them are shown as MM, and none as a question mark.
pub proof fn law_letters_shown(out: Seq<char>, x: char, y: char, rest: Seq<char>)
    requires
        whole_lines(out),
        are_letters(x, y),
        fills_line(rest),
    ensures
        ({
            let shown = status::status_model(
                out + file_line(x, y, rest) + seq!['\n'],
                0,
            ).files.last().status;
            let plain = y != '?' && y != '!';
            let moved = x == 'R' || x == 'C';
            let indexed = x == 'A' || x == 'M' || x == 'D';
            let worked = y == 'M' || y == 'D';
            &&& moved ==> shown == seq![x]
            &&& !moved && y == '?' ==> shown == seq!['U']
            &&& !moved && y == '!' ==> shown == seq!['I']
            &&& plain && indexed ==> shown == seq![x]
            &&& plain && !moved && !indexed && worked ==> shown == seq![y]
            &&& plain && !moved && !indexed && !worked && x != ' ' && y != ' ' ==> shown == seq![
                'M',
                'M',
            ]
            &&& plain && x != ' ' && y == ' ' ==> shown == seq![x]
            &&& plain && x == ' ' && y != ' ' ==> shown == seq![y]
            &&& x == ' ' && y == ' ' ==> shown == seq!['?']
        }),
{
    lemma_last_file(out, x, y, rest);
    lemma_status_text(x);
    lemma_status_text(y);
    reveal_strlit("U");
    reveal_strlit("I");
    reveal_strlit("MM");
    reveal_strlit("?");
    assert("U"@ =~= seq!['U']);
    assert("I"@ =~= seq!['I']);
    assert("MM"@ =~= seq!['M', 'M']);
    assert("?"@ =~= seq!['?']);
}

/// Whether a text can name a branch in the line about it: it is something,
/// without white space and without three dots in a row.
pub open spec fn is_branch_name(s: Seq<char>) -> bool {
    s.len() > 0 && (forall|i: int| 0 <= i < s.len() ==> !text::white(#[trigger] s[i]))
        && !text::occurs(s + seq!['.', '.'], seq!['.', '.', '.'])
}

proof fn lemma_header(out: Seq<char>, limit: int, branch: Seq<char>)
    requires
        whole_lines(out),
        text_laws::is_line(branch),
    ensures
        ({
            let line = seq!['#', '#', ' '] + branch;
            let before = status::status_model(out, limit);
            let after = status::status_model(out + line + seq!['\n'], limit);
            let lower = text::lowercase(branch);
            &&& after.files == before.files
            &&& after.staged_count == before.staged_count
            &&& after.unstaged_count == before.unstaged_count
            &&& after.untracked_count == before.untracked_count
            &&& after.status_limit_hit == before.status_limit_hit
            &&& after.current_branch == status::header_branch(branch)
            &&& after.upstream == (match status::header_upstream(branch) {
                Some(u) => Some(u),
                None => before.upstream,
            })
            &&& status::header_count(branch, lower, "ahead "@) is Some ==> Some(after.ahead)
                == status::header_count(branch, lower, "ahead "@)
            &&& status::header_count(branch, lower, "ahead "@) is None ==> after.ahead
                == before.ahead
            &&& status::header_count(branch, lower, "behind "@) is Some ==> Some(after.behind)
                == status::header_count(branch, lower, "behind "@)
            &&& status::header_count(branch, lower, "behind "@) is None ==> after.behind
                == before.behind
        }),
{
    let line = seq!['#', '#', ' '] + branch;
    let lines = text::lines(out);
    let all = lines.push(line);
    reveal_strlit("## ");
    assert("## "@ =~= seq!['#', '#', ' ']);
    assert(line.take(3) =~= "## "@);
    assert(line.skip(3) =~= branch);
    assert(text_laws::is_line(line)) by {
        if line.contains('\n') {
            let j = choose|j: int| 0 <= j < line.len() && line[j] == '\n';
            assert(branch[j - 3] == '\n');
        }
    }
    lemma_lines_end(out, line);
    assert(all.drop_last() =~= lines);
    assert(all.last() == line);
    assert(all.take(lines.len() as int) =~= lines);
    assert(all.take(lines.len() as int + 1) =~= all);
    status::lemma_kept_step(all, lines.len() as int, limit);
    assert(status::is_header(line));
    assert(status::kept_files(all, limit) =~= status::kept_files(lines, limit));
    assert(status::latest(all, status::branch_of()) == Some(status::header_branch(branch)));
}

/// The line about the branch names the branch before three dots and its
/// upstream behind them, up to the next white space; without dots it names
/// the branch alone. Where no branch is checked out, that is told. Files and
/// counts stay.
pub proof fn law_branch_lines(
    out: Seq<char>,
    limit: int,
    name: Seq<char>,
    upstream: Seq<char>,
    rest: Seq<char>,
)
    requires
        whole_lines(out),
        is_branch_name(name),
        !text::begins(name, "HEAD"@),
        upstream.len() > 0,
        forall|i: int| 0 <= i < upstream.len() ==> !text::white(#[trigger] upstream[i]),
        rest.len() == 0 || text::white(rest[0]),
        text_laws::is_line(name),
        text_laws::is_line(name + seq!['.', '.', '.'] + (upstream + rest)),
    ensures
        ({
            let dots = seq!['.', '.', '.'];
            let front = seq!['#', '#', ' '];
            let before = status::status_model(out, limit);
            let one = status::status_model(
                out + (front + (name + dots + (upstream + rest))) + seq!['\n'],
                limit,
            );
            let alone = status::status_model(out + (front + name) + seq!['\n'], limit);
            &&& one.current_branch == name
            &&& one.upstream == Some(upstream)
            &&& alone.current_branch == name
            &&& alone.upstream == before.upstream
            &&& one.files == before.files && alone.files == before.files
            &&& one.staged_count == before.staged_count
            &&& one.unstaged_count == before.unstaged_count
            &&& one.untracked_count == before.untracked_count
        }),
{
    let dots = seq!['.', '.', '.'];
    let long = name + dots + (upstream + rest);
    reveal_strlit("...");
    assert("..."@ =~= dots);
    assert(dots.drop_last() =~= seq!['.', '.']);
    text_laws::law_first_place(name, dots, upstream + rest);
    text_laws::law_words_read_back(Seq::empty(), upstream, rest);
    assert(Seq::<char>::empty() + upstream + rest =~= upstream + rest);
    assert(text::words(upstream + rest)[0] == upstream);
    lemma_header(out, limit, long);
    lemma_header(out, limit, name);
    text::lemma_find_from(name, dots, 0);
    if text::find(name, dots) is Some {
        let i = text::find(name, dots)->0;
        let longer = name + seq!['.', '.'];
        assert(longer.subrange(i, i + 3) =~= name.subrange(i, i + 3));
        assert(text::stands_at(longer, dots, i));
    }
    text_laws::lemma_first_char(name, ' ');
    if text::find_char(name, ' ') is Some {
        assert(text::white(name[text::find_char(name, ' ')->0]));
    }
}

/// Where no branch is checked out, the branch is told as `HEAD`.
pub proof fn law_no_branch(out: Seq<char>, limit: int, rest: Seq<char>)
    requires
        whole_lines(out),
        text_laws::is_line("HEAD"@ + rest),
        !text::occurs("HEAD"@ + rest, seq!['.', '.', '.']),
    ensures
        status::status_model(
            out + (seq!['#', '#', ' '] + ("HEAD"@ + rest)) + seq!['\n'],
            limit,
        ).current_branch == "HEAD"@,
{
    let branch = "HEAD"@ + rest;
    lemma_header(out, limit, branch);
    reveal_strlit("...");
    reveal_strlit("HEAD");
    assert("..."@ =~= seq!['.', '.', '.']);
    text::lemma_find_from(branch, "..."@, 0);
    text_laws::lemma_first_char(branch, ' ');
    match text::find_char(branch, ' ') {
        Some(i) => {
            assert(branch.take(4) =~= "HEAD"@);
            assert(branch[0] == 'H' && branch[1] == 'E' && branch[2] == 'A' && branch[3] == 'D');
            assert(branch.take(i).take(4) =~= "HEAD"@);
        },
        None => {
            assert(branch.take(4) =~= "HEAD"@);
        },
    }
}

/// How far the branch is ahead or behind is the number that stands behind
/// the first such word of its line, where lowering leaves the line as it is.
pub proof fn law_ahead_and_behind(
    out: Seq<char>,
    limit: int,
    front: Seq<char>,
    digits: Seq<char>,
    rest: Seq<char>,
)
    requires
        whole_lines(out),
        text_laws::is_number(digits),
        text::decimal_value(digits) <= i32::MAX,
        rest.len() == 0 || !('0' <= rest[0] <= '9'),
    ensures
        ({
            let ahead = front + "ahead "@ + (digits + rest);
            let behind = front + "behind "@ + (digits + rest);
            let status = |branch: Seq<char>|
                status::status_model(
                    out + (seq!['#', '#', ' '] + branch) + seq!['\n'],
                    limit,
                );
            &&& text_laws::is_line(ahead) && text::lowercase(ahead) == ahead && !text::occurs(
                front + "ahead"@,
                "ahead "@,
            ) ==> status(ahead).ahead == text::decimal_value(digits)
            &&& text_laws::is_line(behind) && text::lowercase(behind) == behind && !text::occurs(
                front + "behind"@,
                "behind "@,
            ) ==> status(behind).behind == text::decimal_value(digits)
        }),
{
    reveal_strlit("ahead ");
    reveal_strlit("ahead");
    reveal_strlit("behind ");
    reveal_strlit("behind");
    assert("ahead "@.drop_last() =~= "ahead"@);
    assert("behind "@.drop_last() =~= "behind"@);
    let ahead = front + "ahead "@ + (digits + rest);
    let behind = front + "behind "@ + (digits + rest);
    if text_laws::is_line(ahead) && text::lowercase(ahead) == ahead && !text::occurs(
        front + "ahead"@,
        "ahead "@,
    ) {
        lemma_header(out, limit, ahead);
        lemma_count_read(front, "ahead "@, digits, rest);
    }
    if text_laws::is_line(behind) && text::lowercase(behind) == behind && !text::occurs(
        front + "behind"@,
        "behind "@,
    ) {
        lemma_header(out, limit, behind);
        lemma_count_read(front, "behind "@, digits, rest);
    }
}

proof fn lemma_count_read(front: Seq<char>, key: Seq<char>, digits: Seq<char>, rest: Seq<char>)
    requires
        key.len() > 0,
        !text::occurs(front + key.drop_last(), key),
        text_laws::is_number(digits),
        text::decimal_value(digits) <= i32::MAX,
        rest.len() == 0 || !('0' <= rest[0] <= '9'),
    ensures
        ({
            let branch = front + key + (digits + rest);
            status::header_count(branch, branch, key) == Some(text::decimal_value(digits) as i32)
        }),
{
    let branch = front + key + (digits + rest);
    text_laws::law_first_place(front, key, digits + rest);
    text_laws::law_places_by_bytes(front + key, digits + rest);
    text_laws::law_places_by_bytes(front, key);
    text_laws::law_numbers_at_the_ends(digits, rest);
    assert(branch.skip((front + key).len() as int) =~= digits + rest);
}

/// The state of a working tree is read from what `git` prints of it, with
/// untracked files one by one, the branch, and renames as such. Outside a
/// repository, or where `git` says that there is none, there is nothing to
/// tell; any other failure is passed on.
pub proof fn law_the_state_is_asked_for(is_repo: bool, limit: int, replies: Seq<GitReplyModel>)
    ensures
        ({
            let step = status::status_step(is_repo, limit, replies);
            let nothing = step matches Some(GitStepModel::Done(r)) && r is Ok && {
                let s = r->Ok_0;
                &&& !s.is_repo
                &&& s.current_branch.len() == 0
                &&& s.upstream is None
                &&& s.ahead == 0 && s.behind == 0
                &&& s.files.len() == 0
                &&& s.staged_count == 0 && s.unstaged_count == 0 && s.untracked_count == 0
                &&& !s.status_limit_hit
            };
            &&& !is_repo ==> nothing
            &&& is_repo && replies.len() == 0 ==> {
                &&& step is Some && step->0 is Run && !step->0->raw
                &&& step->0->args.len() == 5
                &&& step->0->args[0] == "status"@
                &&& step->0->args.contains("--porcelain=v1"@)
                &&& step->0->args.contains("-b"@)
                &&& step->0->args.contains("--find-renames"@)
                &&& step->0->args.contains("-uall"@)
            }
            &&& is_repo && replies.len() > 0 && replies[0] is Output && status::status_ok(
                replies[0]->Output_0,
                limit,
            ) ==> step == Some(
                GitStepModel::Done(Ok(status::status_model(replies[0]->Output_0, limit))),
            )
            &&& is_repo && replies.len() > 0 && replies[0] is Failed ==> {
                let e = replies[0]->Failed_0;
                &&& text::occurs(error::error_text(e), "not a git repository"@) ==> nothing
                &&& !text::occurs(error::error_text(e), "not a git repository"@) ==> step == Some(
                    GitStepModel::<status::GitStatusModel>::Done(Err(e)),
                )
            }
        }),
{
    let args = seq!["status"@, "--porcelain=v1"@, "-b"@, "--find-renames"@, "-uall"@];
    assert(args[1] == "--porcelain=v1"@ && args[2] == "-b"@ && args[3] == "--find-renames"@
        && args[4] == "-uall"@);
}

} // verus!
