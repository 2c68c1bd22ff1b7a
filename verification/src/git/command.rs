//! How `git` is started and how the end of a run is read.

use vstd::prelude::*;
use vstd::slice::slice_subrange;
use crate::error;
use crate::error::StorageError;
use crate::git::{arguments, GitReply, GitReplyModel};
use crate::text;

verus! {

/// What the user is told when the `git` program is missing.
pub const GIT_NOT_FOUND_MESSAGE: &'static str =
    "git executable not found in PATH — install Git for Windows, or configure a WSL shell in the terminal settings";

/// A program to start, with its arguments and working directory.
pub struct GitCommand {
    pub program: String,
    pub args: Vec<String>,
    pub current_dir: Option<String>,
}

/// The mathematical form of a program to start.
pub struct GitCommandModel {
    pub program: Seq<char>,
    pub args: Seq<Seq<char>>,
    pub current_dir: Option<Seq<char>>,
}

impl DeepView for GitCommand {
    type V = GitCommandModel;

    open spec fn deep_view(&self) -> GitCommandModel {
        GitCommandModel {
            program: self.program@,
            args: self.args.deep_view(),
            current_dir: self.current_dir.deep_view(),
        }
    }
}

/// A shell argument in single quotes; a quote inside is closed, escaped and
/// opened again.
pub open spec fn quoted(arg: Seq<char>) -> Seq<char> {
    seq!['\''] + text::replaced(arg, '\'', "'\\''"@) + seq!['\'']
}

/// Quotes a shell argument.
pub fn shell_quote(arg: &str) -> (out: Vec<char>)
    ensures
        out@ == quoted(arg@),
{
    let chars = text::chars_of(arg);
    let inner = text::replace_char(chars.as_slice(), '\'', "'\\''");
    let mut out: Vec<char> = Vec::new();
    out.push('\'');
    text::append(&mut out, inner.as_slice());
    out.push('\'');
    proof {
        assert(out@ =~= quoted(arg@));
    }
    out
}

/// The Linux path of a share path such as `\\wsl$\distro\home\user`; any
/// other path stays as it is.
pub open spec fn wsl_path(path: Seq<char>) -> Seq<char> {
    let prefix = "\\\\wsl$\\"@;
    if text::begins(path, prefix) {
        let rest = path.skip(prefix.len() as int);
        match text::find_char(rest, '\\') {
            Some(i) => "/"@ + text::replaced(rest.skip(i + 1), '\\', "/"@),
            None => path,
        }
    } else {
        path
    }
}

/// The path in which a shell of the Linux subsystem starts.
pub fn wsl_cd_path(repo_path: &str) -> (out: String)
    ensures
        out@ == wsl_path(repo_path@),
{
    let path = text::chars_of(repo_path);
    let prefix = text::chars_of("\\\\wsl$\\");
    let total: usize = path.len();
    if text::starts_with(path.as_slice(), "\\\\wsl$\\") {
        let rest = slice_subrange(path.as_slice(), prefix.len(), total);
        let rest_len: usize = rest.len();
        proof {
            assert(rest@ =~= path@.skip(prefix@.len() as int));
        }
        match text::position_char(rest, '\\') {
            Some(i) => {
                let linux = slice_subrange(rest, i + 1, rest_len);
                proof {
                    assert(linux@ =~= rest@.skip(i + 1));
                }
                let tail = text::replace_char(linux, '\\', "/");
                let mut out = text::chars_of("/");
                text::append(&mut out, tail.as_slice());
                return text::string_of(out.as_slice());
            },
            None => {},
        }
    }
    repo_path.to_string()
}

/// The words that come before the arguments of every `git` run.
pub open spec fn leading_words() -> Seq<Seq<char>> {
    seq!["git"@, "-c"@, "core.quotepath=false"@, "-c"@, "safe.directory=*"@]
}

/// The command line that a shell of the Linux subsystem runs.
pub open spec fn shell_line(args: Seq<Seq<char>>) -> Seq<char> {
    text::joined((leading_words() + args).map_values(|a: Seq<char>| quoted(a)), " "@)
}

/// What a POSIX shell has read of a line: the words that are complete, the
/// word that it is in, and how it takes the next character. A character
/// outside quotes that may have a meaning of its own ends the reading.
pub struct ShellState {
    pub words: Seq<Seq<char>>,
    pub word: Option<Seq<char>>,
    pub in_quotes: bool,
    pub escaped: bool,
    pub special: bool,
}

/// The word that a shell is in, with what is added to it.
pub open spec fn longer(word: Option<Seq<char>>, more: Seq<char>) -> Option<Seq<char>> {
    match word {
        Some(w) => Some(w + more),
        None => Some(more),
    }
}

/// What a shell makes of the next character.
pub open spec fn shell_step(st: ShellState, c: char) -> ShellState {
    if st.special {
        st
    } else if st.in_quotes {
        if c == '\'' {
            ShellState { in_quotes: false, ..st }
        } else {
            ShellState { word: longer(st.word, seq![c]), ..st }
        }
    } else if st.escaped {
        ShellState { word: longer(st.word, seq![c]), escaped: false, ..st }
    } else if c == '\'' {
        ShellState { word: longer(st.word, Seq::empty()), in_quotes: true, ..st }
    } else if c == '\\' {
        ShellState { escaped: true, ..st }
    } else if c == ' ' {
        match st.word {
            Some(w) => ShellState { words: st.words.push(w), word: None, ..st },
            None => st,
        }
    } else {
        ShellState { special: true, ..st }
    }
}

/// What a shell makes of a text.
pub open spec fn shell_run(st: ShellState, s: Seq<char>) -> ShellState
    decreases s.len(),
{
    if s.len() == 0 {
        st
    } else {
        shell_step(shell_run(st, s.drop_last()), s.last())
    }
}

/// A shell at the beginning of a line.
pub open spec fn shell_start() -> ShellState {
    ShellState {
        words: Seq::empty(),
        word: None,
        in_quotes: false,
        escaped: false,
        special: false,
    }
}

/// The words that a shell reads in a line; none where a quote stays open or
/// a character outside quotes may have a meaning of its own.
pub open spec fn shell_words(line: Seq<char>) -> Option<Seq<Seq<char>>> {
    let end = shell_run(shell_start(), line);
    if end.special || end.in_quotes || end.escaped {
        None
    } else {
        match end.word {
            Some(w) => Some(end.words.push(w)),
            None => Some(end.words),
        }
    }
}

proof fn lemma_shell_run_on(st: ShellState, a: Seq<char>, b: Seq<char>)
    ensures
        shell_run(st, a + b) == shell_run(shell_run(st, a), b),
    decreases b.len(),
{
    if b.len() == 0 {
        assert(a + b =~= a);
    } else {
        assert((a + b).drop_last() =~= a + b.drop_last());
        lemma_shell_run_on(st, a, b.drop_last());
    }
}

/// Inside quotes a shell reads the quoted form of a text as the text.
proof fn lemma_shell_reads_inside(st: ShellState, arg: Seq<char>)
    requires
        st.in_quotes,
        !st.escaped,
        !st.special,
        st.word is Some,
    ensures
        shell_run(st, text::replaced(arg, '\'', "'\\''"@)) == (ShellState {
            word: Some(st.word->Some_0 + arg),
            ..st
        }),
    decreases arg.len(),
{
    let by = "'\\''"@;
    if arg.len() == 0 {
        assert(st.word->Some_0 + arg =~= st.word->Some_0);
    } else {
        let front = text::replaced(arg.drop_last(), '\'', by);
        lemma_shell_reads_inside(st, arg.drop_last());
        let mid = shell_run(st, front);
        let w = st.word->Some_0 + arg.drop_last();
        assert(st.word->Some_0 + arg =~= w + seq![arg.last()]);
        if arg.last() == '\'' {
            reveal_strlit("'\\''");
            assert(by =~= seq!['\'', '\\', '\'', '\'']);
            lemma_shell_run_on(st, front, by);
            let q1 = seq!['\''];
            let q2 = seq!['\'', '\\'];
            let q3 = seq!['\'', '\\', '\''];
            assert(q1.drop_last() =~= Seq::empty());
            assert(q2.drop_last() =~= q1);
            assert(q3.drop_last() =~= q2);
            assert(by.drop_last() =~= q3);
            assert(shell_run(mid, Seq::empty()) == mid);
            assert(shell_run(mid, q1) == shell_step(mid, '\''));
            assert(shell_run(mid, q2) == shell_step(shell_run(mid, q1), '\\'));
            assert(shell_run(mid, q3) == shell_step(shell_run(mid, q2), '\''));
            assert(shell_run(mid, by) == shell_step(shell_run(mid, q3), '\''));
            assert(w + seq!['\''] + Seq::empty() =~= w + seq!['\'']);
        } else {
            let one = seq![arg.last()];
            lemma_shell_run_on(st, front, one);
            assert(one.drop_last() =~= Seq::empty());
            assert(shell_run(mid, one) == shell_step(shell_run(mid, Seq::empty()), arg.last()));
        }
    }
}

/// Outside a word a shell reads a quoted argument as a word.
proof fn lemma_shell_reads_argument(st: ShellState, arg: Seq<char>)
    requires
        !st.in_quotes,
        !st.escaped,
        !st.special,
        st.word is None,
    ensures
        shell_run(st, quoted(arg)) == (ShellState { word: Some(arg), ..st }),
{
    let q = seq!['\''];
    let inner = text::replaced(arg, '\'', "'\\''"@);
    lemma_shell_run_on(st, q + inner, q);
    lemma_shell_run_on(st, q, inner);
    assert(q.drop_last() =~= Seq::empty());
    let open = shell_run(st, q);
    assert(open == shell_step(shell_run(st, Seq::empty()), '\''));
    lemma_shell_reads_inside(open, arg);
    let read = shell_run(open, inner);
    assert(Seq::<char>::empty() + arg =~= arg);
    assert(shell_run(read, q) == shell_step(shell_run(read, Seq::empty()), '\''));
}

proof fn lemma_shell_reads_line(words: Seq<Seq<char>>)
    requires
        words.len() > 0,
    ensures
        shell_run(
            shell_start(),
            text::joined(words.map_values(|a: Seq<char>| quoted(a)), " "@),
        ) == (ShellState { words: words.drop_last(), word: Some(words.last()), ..shell_start() }),
    decreases words.len(),
{
    let f = |a: Seq<char>| quoted(a);
    let parts = words.map_values(f);
    let st = shell_start();
    if words.len() == 1 {
        assert(parts =~= seq![quoted(words[0])]);
        assert(words.drop_last() =~= Seq::empty());
        assert(text::joined(parts, " "@) =~= quoted(words[0]));
        lemma_shell_reads_argument(st, words[0]);
    } else {
        let front = words.drop_last();
        lemma_shell_reads_line(front);
        assert(parts.drop_last() =~= front.map_values(f));
        let line = text::joined(front.map_values(f), " "@);
        reveal_strlit(" ");
        let gap = " "@;
        assert(gap =~= seq![' ']);
        assert(text::joined(parts, " "@) =~= (line + gap) + quoted(words.last()));
        lemma_shell_run_on(st, line + gap, quoted(words.last()));
        lemma_shell_run_on(st, line, gap);
        assert(gap.drop_last() =~= Seq::empty());
        let mid = shell_run(st, line);
        assert(shell_run(mid, gap) == shell_step(shell_run(mid, Seq::empty()), ' '));
        assert(front.drop_last().push(front.last()) =~= front);
        lemma_shell_reads_argument(shell_run(mid, gap), words.last());
    }
}

/// The shell reads the command line as the words of the run: `git`, what
/// comes before its arguments, and every argument as it is, with whatever
/// blanks, quotes and wildcards it holds.
pub proof fn law_shell_reads_the_arguments(args: Seq<Seq<char>>)
    ensures
        shell_words(shell_line(args)) == Some(leading_words() + args),
{
    let words = leading_words() + args;
    lemma_shell_reads_line(words);
    assert(words.drop_last().push(words.last()) =~= words);
}

/// The program that runs `git`: through the configured shell where that is
/// one of the Linux subsystem, directly otherwise.
pub open spec fn git_command(
    shell_path: Seq<char>,
    is_wsl: bool,
    repo_path: Seq<char>,
    args: Seq<Seq<char>>,
) -> GitCommandModel {
    if is_wsl {
        GitCommandModel {
            program: shell_path,
            args: seq![
                "--cd"@,
                wsl_path(repo_path),
                "-e"@,
                "bash"@,
                "-lc"@,
                shell_line(args),
            ],
            current_dir: None,
        }
    } else {
        GitCommandModel {
            program: "git"@,
            args: leading_words().skip(1) + args,
            current_dir: Some(repo_path),
        }
    }
}

/// Builds the program that runs `git`.
pub fn build_git_command(
    shell_path: &str,
    is_wsl: bool,
    repo_path: &str,
    args: &Vec<String>,
) -> (r: GitCommand)
    ensures
        r.deep_view() == git_command(shell_path@, is_wsl, repo_path@, args.deep_view()),
{
    let ghost f = |a: Seq<char>| quoted(a);
    let ghost words = leading_words() + args.deep_view();
    if is_wsl {
        let first = arguments(&["git", "-c", "core.quotepath=false", "-c", "safe.directory=*"]);
        proof {
            assert(first.deep_view() =~= leading_words());
        }
        let mut parts: Vec<Vec<char>> = Vec::new();
        let mut i: usize = 0;
        while i < first.len()
            invariant
                i <= first@.len(),
                first.deep_view() == leading_words(),
                words == leading_words() + args.deep_view(),
                parts@.len() == i,
                forall|j: int| 0 <= j < i ==> (#[trigger] parts@[j])@ == quoted(words[j]),
            decreases first@.len() - i,
        {
            let q = shell_quote(first[i].as_str());
            proof {
                assert(first.deep_view()[i as int] == first@[i as int]@);
            }
            parts.push(q);
            i += 1;
        }
        let mut k: usize = 0;
        while k < args.len()
            invariant
                k <= args@.len(),
                first@.len() == leading_words().len(),
                words == leading_words() + args.deep_view(),
                parts@.len() == first@.len() + k,
                forall|j: int|
                    0 <= j < parts@.len() ==> (#[trigger] parts@[j])@ == quoted(words[j]),
            decreases args@.len() - k,
        {
            let q = shell_quote(args[k].as_str());
            proof {
                assert(args.deep_view()[k as int] == args@[k as int]@);
                assert(words[leading_words().len() + k] == args.deep_view()[k as int]);
            }
            parts.push(q);
            k += 1;
        }
        let line = text::join(&parts, " ");
        proof {
            assert(words.len() == parts@.len());
            assert(text::texts(parts@) =~= words.map_values(f));
        }
        let line_text = text::string_of(line.as_slice());
        let cd = wsl_cd_path(repo_path);
        let command = arguments(&["--cd", cd.as_str(), "-e", "bash", "-lc", line_text.as_str()]);
        proof {
            assert(command.deep_view() =~= git_command(
                shell_path@,
                is_wsl,
                repo_path@,
                args.deep_view(),
            ).args);
        }
        return GitCommand { program: shell_path.to_string(), args: command, current_dir: None };
    }
    let mut all = arguments(&["-c", "core.quotepath=false", "-c", "safe.directory=*"]);
    let ghost start = leading_words().skip(1);
    proof {
        assert(all.deep_view() =~= start);
        assert(start + args.deep_view().take(0) =~= start);
    }
    let mut i: usize = 0;
    while i < args.len()
        invariant
            i <= args@.len(),
            all.deep_view() == start + args.deep_view().take(i as int),
        decreases args@.len() - i,
    {
        let ghost before = all.deep_view();
        let a = args[i].clone();
        all.push(a);
        proof {
            assert(args.deep_view()[i as int] == a@);
            assert(all.deep_view() =~= before.push(a@));
            assert(before.push(a@) =~= start + args.deep_view().take(i + 1));
        }
        i += 1;
    }
    proof {
        assert(args.deep_view().take(i as int) =~= args.deep_view());
    }
    GitCommand {
        program: "git".to_string(),
        args: all,
        current_dir: Some(repo_path.to_string()),
    }
}

/// The reply of a run that ended: what it printed, or, where it reported a
/// failure, the error text (or else the output) without white space around
/// it. A raw run takes what was printed in any case.
pub open spec fn run_reply(
    raw: bool,
    success: bool,
    stdout: Seq<char>,
    stderr: Seq<char>,
) -> GitReplyModel {
    if raw || success {
        GitReplyModel::Output(stdout)
    } else {
        GitReplyModel::Failed(
            error::failure(
                if text::trimmed(stderr).len() == 0 {
                    text::trimmed(stdout)
                } else {
                    text::trimmed(stderr)
                },
            ),
        )
    }
}

/// Reads the end of a run whose output is given as text.
pub fn read_run_text(raw: bool, success: bool, stdout: &str, stderr: &str) -> (r: GitReply)
    ensures
        r.deep_view() == run_reply(raw, success, stdout@, stderr@),
{
    if raw || success {
        return GitReply::Output(stdout.to_string());
    }
    let out = text::chars_of(stdout);
    let err = text::chars_of(stderr);
    let shown = text::trim(err.as_slice());
    let reason = if shown.len() == 0 {
        text::string_of(text::trim(out.as_slice()))
    } else {
        text::string_of(shown)
    };
    GitReply::Failed(StorageError::from_reason(reason.as_str()))
}

/// Reads the end of a run.
pub fn read_run(raw: bool, success: bool, stdout: &[u8], stderr: &[u8]) -> (r: GitReply)
    ensures
        r.deep_view() == run_reply(
            raw,
            success,
            text::lossy_text(stdout@),
            text::lossy_text(stderr@),
        ),
{
    let out = text::from_utf8_lossy(stdout);
    let err = text::from_utf8_lossy(stderr);
    read_run_text(raw, success, out.as_str(), err.as_str())
}

/// The reply of a run that could not be started.
pub fn not_started(missing: bool, why: &str) -> (r: GitReply)
    ensures
        r.deep_view() == GitReplyModel::Failed(
            error::failure(
                if missing {
                    GIT_NOT_FOUND_MESSAGE@
                } else {
                    "Failed to execute git: "@ + why@
                },
            ),
        ),
{
    if missing {
        return GitReply::Failed(StorageError::from_reason(GIT_NOT_FOUND_MESSAGE));
    }
    let mut reason = "Failed to execute git: ".to_string();
    reason.append(why);
    GitReply::Failed(StorageError::from_reason(reason.as_str()))
}

} // verus!
