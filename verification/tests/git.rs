use snow_storage::error::StorageError;
use snow_storage::git::actions;
use snow_storage::git::command;
use snow_storage::git::diff;
use snow_storage::git::discover::{is_ignored, is_skip_dir, RepoEntry, RepoScan};
use snow_storage::git::log;
use snow_storage::git::status;
use snow_storage::git::{GitReply, GitStep};

fn out(s: &str) -> GitReply {
    GitReply::Output(s.to_string())
}

fn failed(s: &str) -> GitReply {
    GitReply::Failed(StorageError::from_reason(s))
}

fn run_of<T>(step: GitStep<T>) -> (Vec<String>, bool) {
    match step {
        GitStep::Run { args, raw } => (args, raw),
        GitStep::Done(_) => panic!("expected a run"),
    }
}

fn done<T>(step: GitStep<T>) -> T {
    match step {
        GitStep::Run { .. } => panic!("expected a result"),
        GitStep::Done(Ok(v)) => v,
        GitStep::Done(Err(e)) => panic!("{}", e.reason),
    }
}

fn list(items: &[&str]) -> Vec<String> {
    items.iter().map(|s| s.to_string()).collect()
}

#[test]
fn status_of_a_directory_that_is_no_repository() {
    let r = done(status::get_git_status(false, 10, &vec![]).unwrap());
    assert!(!r.is_repo);
    assert!(r.files.is_empty());
}

#[test]
fn status_asks_git_first() {
    let (args, raw) = run_of(status::get_git_status(true, 10, &vec![]).unwrap());
    assert_eq!(args, list(&["status", "--porcelain=v1", "-b", "--find-renames", "-uall"]));
    assert!(!raw);
}

#[test]
fn status_output_is_read() {
    let text = "## main...origin/main [ahead 2, behind 13]\n M src/a.rs\nR  old.rs -> new.rs\n?? \"new file\"\nMM both\n!! ign\n";
    let r = done(status::get_git_status(true, 0, &vec![out(text)]).unwrap());
    assert!(r.is_repo);
    assert_eq!(r.current_branch, "main");
    assert_eq!(r.upstream.as_deref(), Some("origin/main"));
    assert_eq!((r.ahead, r.behind), (2, 13));
    let shown: Vec<(String, String)> =
        r.files.iter().map(|f| (f.path.clone(), f.status.clone())).collect();
    let expected: Vec<(String, String)> = [
        ("src/a.rs", "M"),
        ("new.rs", "R"),
        ("new file", "U"),
        ("both", "M"),
        ("ign", "I"),
    ]
    .iter()
    .map(|(a, b)| (a.to_string(), b.to_string()))
    .collect();
    assert_eq!(shown, expected);
    assert_eq!(r.files[1].old_path.as_deref(), Some("old.rs"));
    assert_eq!(r.files[0].index_status, " ");
    assert_eq!((r.staged_count, r.unstaged_count, r.untracked_count), (2, 2, 2));
    assert!(!r.status_limit_hit);
}

#[test]
fn status_list_is_cut_at_the_limit() {
    let r = status::read_status("## main\n M a\n M b\n M c\n", 2).unwrap();
    assert_eq!(r.files.len(), 2);
    assert!(r.status_limit_hit);
    let r = status::read_status("## main\n M a\n M b\n", 2).unwrap();
    assert!(!r.status_limit_hit);
}

#[test]
fn detached_head_is_shown_as_head() {
    let r = status::read_status("## HEAD (no branch)\n", -1).unwrap();
    assert_eq!(r.current_branch, "HEAD");
    assert_eq!(r.upstream, None);
}

#[test]
fn corrupted_repository_counts_as_none() {
    let reply = failed("fatal: not a git repository: x");
    assert!(!done(status::get_git_status(true, 0, &vec![reply]).unwrap()).is_repo);
    match status::get_git_status(true, 0, &vec![failed("permission denied")]).unwrap() {
        GitStep::Done(Err(e)) => assert_eq!(e.reason, "permission denied"),
        _ => panic!("the error is passed on"),
    }
}

#[test]
fn status_line_cut_inside_a_character_has_no_reading() {
    // The path of a line begins at its fourth byte.
    assert!(status::read_status("a新b\n", 0).is_none());
}

#[test]
fn display_status_prefers_the_index() {
    for (i, w, s) in [
        ("R", "M", "R"),
        ("C", "", "C"),
        ("?", "?", "U"),
        ("!", "!", "I"),
        ("A", "M", "A"),
        ("D", "", "D"),
        ("", "D", "D"),
        ("U", "U", "MM"),
        ("T", "", "T"),
        ("", "T", "T"),
        ("", "", "?"),
    ] {
        assert_eq!(status::derive_display_status(i, w), s);
    }
    assert_eq!(status::parse_status_char(' '), "");
    assert_eq!(status::parse_status_char('M'), "M");
}

#[test]
fn branches_are_read() {
    let text = "*main abc origin/main\n feature/x def\n origin/dev 123\n\n HEAD 1\n";
    let b = done(log::get_git_branches(true, &vec![out(text)]));
    assert_eq!(b.len(), 3);
    assert_eq!(b[0].name, "main");
    assert!(b[0].is_current && !b[0].is_remote);
    assert_eq!(b[1].remote_name.as_deref(), Some("feature"));
    assert!(b[2].is_remote && !b[2].is_current);
    assert!(done(log::get_git_branches(false, &vec![])).is_empty());
    let (args, _) = run_of(log::get_git_branches(true, &vec![]));
    assert_eq!(args[0..3].to_vec(), list(&["branch", "--list", "--all"]));
}

#[test]
fn log_is_read_with_its_line_counts() {
    let text = "H1\x1fh1\x1fAnn\x1fa@x\x1f2024\x1fmsg\x1frefs/heads/main\x1fP1 P2\n\n 1 file changed, 347 insertions(+), 2 deletions(-)\nH2\x1fh2\x1fBob\x1fb@x\x1f2023\x1fother\x1f\x1f\n";
    let e = done(log::get_git_log(true, 0, 10, &vec![out(text)]));
    assert_eq!(e.len(), 2);
    assert_eq!((e[0].additions, e[0].deletions), (347, 2));
    assert_eq!(e[0].parents, list(&["P1", "P2"]));
    assert_eq!(e[1].message, "other");
    assert!(e[1].parents.is_empty());
    let (args, raw) = run_of(log::get_git_log(true, -3, 0, &vec![]));
    assert!(raw);
    assert_eq!(args[6..10].to_vec(), list(&["--skip", "0", "--max-count", "50"]));
}

#[test]
fn line_counts_take_the_last_number() {
    let line: Vec<char> = "1 insertion, 22 insertions(+)".chars().collect();
    assert_eq!(log::parse_shortstat_count(&line, "insertion"), 22);
    let line: Vec<char> = "99999999999 insertions".chars().collect();
    assert_eq!(log::parse_shortstat_count(&line, "insertion"), 0);
    let line: Vec<char> = "no count".chars().collect();
    assert_eq!(log::parse_shortstat_count(&line, "deletion"), 0);
}

#[test]
fn files_of_a_commit_are_read() {
    let f = done(log::get_commit_files(true, "abc", &vec![out("M\ta.rs\nR100\told\tnew\nbroken\n")]));
    assert_eq!(f.len(), 2);
    assert_eq!((f[1].status.as_str(), f[1].path.as_str()), ("R100", "old\tnew"));
    let (args, raw) = run_of(log::get_commit_files(true, "abc", &vec![]));
    assert_eq!(args, list(&["diff-tree", "--no-commit-id", "--name-status", "-r", "abc"]));
    assert!(raw);
}

#[test]
fn staging_runs_add() {
    let none: Vec<String> = vec![];
    assert_eq!(done(actions::stage_files(&none, &vec![])).message, "No files to stage");
    let files = list(&["a", "b"]);
    let (args, _) = run_of(actions::stage_files(&files, &vec![]));
    assert_eq!(args, list(&["add", "--", "a", "b"]));
    let r = done(actions::stage_files(&files, &vec![out("")]));
    assert!(r.success);
    assert_eq!(r.message, "Files staged successfully");
    let r = done(actions::stage_files(&files, &vec![failed("boom")]));
    assert!(!r.success);
    assert_eq!(r.message, "GenericFailure, boom");
    let (args, _) = run_of(actions::unstage_files(&files, &vec![]));
    assert_eq!(args, list(&["reset", "HEAD", "--", "a", "b"]));
}

#[test]
fn commits_report_a_short_hash() {
    let r = done(actions::commit_changes("  ", &vec![]).unwrap());
    assert!(!r.success);
    assert_eq!(r.message, "Commit message is required");
    let (args, _) = run_of(actions::commit_changes("msg", &vec![]).unwrap());
    assert_eq!(args, list(&["commit", "-m", "msg"]));
    let (args, _) = run_of(actions::commit_changes("msg", &vec![out("")]).unwrap());
    assert_eq!(args, list(&["rev-parse", "HEAD"]));
    let r = done(actions::commit_changes("msg", &vec![out(""), out("0123456789abcdef\n")]).unwrap());
    assert_eq!(r.hash.as_deref(), Some("01234567"));
    let r = done(actions::commit_changes("msg", &vec![out(""), out(" 0123 ")]).unwrap());
    assert_eq!(r.hash.as_deref(), Some("0123"));
    let r = done(actions::commit_changes("msg", &vec![out(""), failed("x")]).unwrap());
    assert!(r.success);
    assert_eq!(r.hash, None);
}

#[test]
fn discarding_sorts_files_by_what_git_knows() {
    let files = list(&["a", "new", "gone", "a"]);
    let status_out = " M a\0?? new\0 M other\0";
    let (restored, removed) = actions::sort_discarded(status_out, &files).unwrap();
    assert_eq!(restored, list(&["a", "gone"]));
    assert_eq!(removed, list(&["new"]));
    let (args, _) = run_of(actions::discard_changes(&files, &vec![]).unwrap());
    assert_eq!(args, list(&["status", "--porcelain", "-z", "-uall"]));
    let (args, _) = run_of(actions::discard_changes(&files, &vec![out(status_out)]).unwrap());
    assert_eq!(args, list(&["checkout", "--", "a", "gone"]));
    let (args, _) =
        run_of(actions::discard_changes(&files, &vec![out(status_out), out("")]).unwrap());
    assert_eq!(args, list(&["clean", "-f", "--", "new"]));
    let r = done(
        actions::discard_changes(&files, &vec![out(status_out), out(""), out("")]).unwrap(),
    );
    assert!(r.success);
}

#[test]
fn diffs_are_forced_to_text_where_git_sees_binary() {
    let (args, _) = run_of(diff::get_file_diff("a", true, &vec![]));
    assert_eq!(args, list(&["diff", "--cached", "--", "a"]));
    let (args, _) = run_of(diff::get_file_diff("a", false, &vec![out("Binary files differ")]));
    assert_eq!(args, list(&["diff", "--text", "--", "a"]));
    let r = done(diff::get_file_diff("a", false, &vec![out("Binary files differ"), out("")]));
    assert!(r.is_binary);
    assert_eq!(r.content, "Binary file - diff not available");
    let (args, raw) = run_of(diff::get_file_diff("a", false, &vec![out("")]));
    assert_eq!(args, list(&["diff", "--no-index", "--text", "/dev/null", "a"]));
    assert!(raw);
    let r = done(diff::get_file_diff("a", false, &vec![out(""), out("+x")]));
    assert_eq!(r.content, "+x");
    let r = done(diff::get_file_diff("a", true, &vec![out("")]));
    assert_eq!(r.content, "");
    let r = done(diff::get_commit_file_diff(true, "h", "f", &vec![failed("bad")]));
    assert_eq!(r.content, "GenericFailure, bad");
}

#[test]
fn commands_are_quoted_for_a_shell() {
    let q: String = command::shell_quote("it's").into_iter().collect();
    assert_eq!(q, "'it'\\''s'");
    assert_eq!(command::wsl_cd_path("\\\\wsl$\\Ubuntu\\home\\me"), "/home/me");
    assert_eq!(command::wsl_cd_path("/plain"), "/plain");
}

#[test]
fn runs_are_read_by_their_success() {
    match command::read_run(false, true, b"text \xff", b"") {
        GitReply::Output(s) => assert_eq!(s, "text \u{fffd}"),
        _ => panic!("a successful run has output"),
    }
    match command::read_run(false, false, b"", b"fatal: x\n") {
        GitReply::Failed(e) => assert!(e.reason.contains("fatal: x")),
        _ => panic!("a failed run has an error"),
    }
    match command::read_run(true, false, b"kept", b"ignored") {
        GitReply::Output(s) => assert_eq!(s, "kept"),
        _ => panic!("raw runs keep what was printed"),
    }
}

fn entry(path: &str, name: &str, has_git: bool) -> RepoEntry {
    RepoEntry {
        path: path.to_string(),
        name: Some(name.to_string()),
        has_git,
        is_dir: true,
        head: if has_git { Some("main\n".to_string()) } else { None },
    }
}

#[test]
fn repositories_are_found_breadth_first_and_sorted() {
    let mut scan = RepoScan::start(&entry("/w", "w", false));
    let ignored: Vec<String> = vec![];
    assert_eq!(scan.next_directory(2), Some(("/w".to_string(), 0)));
    scan.visit(
        &vec![entry("/w/z", "z", true), entry("/w/node_modules", "node_modules", false), entry("/w/a", "a", false)],
        0,
        &ignored,
    );
    assert_eq!(scan.next_directory(2), Some(("/w/a".to_string(), 1)));
    scan.visit(&vec![entry("/w/a/r", "r", true)], 1, &ignored);
    assert_eq!(scan.next_directory(2), None);
    let found: Vec<String> = scan.discover_git_repos().into_iter().map(|r| r.path).collect();
    assert_eq!(found, list(&["/w/a/r", "/w/z"]));
    assert!(is_skip_dir("node_modules"));
    assert!(is_ignored("X", &list(&["X"])));
}

#[test]
fn everything_is_staged_and_unstaged() {
    assert_eq!(run_of(actions::stage_all(&vec![])).0, list(&["add", "--all"]));
    let r = done(actions::stage_all(&vec![out("")]));
    assert_eq!((r.success, r.message.as_str()), (true, "All changes staged"));
    assert_eq!(run_of(actions::unstage_all(&vec![])).0, list(&["reset", "HEAD"]));
    let r = done(actions::unstage_all(&vec![failed("no commit")]));
    assert_eq!((r.success, r.message.as_str()), (false, "GenericFailure, no commit"));
}

#[test]
fn pushing_and_pulling_report_what_git_says() {
    assert_eq!(run_of(actions::push_changes(&vec![])).0, list(&["push"]));
    let r = done(actions::push_changes(&vec![out(" \n")]));
    assert_eq!((r.success, r.message.as_str()), (true, "Push successful"));
    assert_eq!(run_of(actions::pull_changes(&vec![])).0, list(&["pull"]));
    let r = done(actions::pull_changes(&vec![out(" Already up to date.\n")]));
    assert_eq!((r.success, r.message.as_str()), (true, "Already up to date."));
    assert!(!done(actions::pull_changes(&vec![failed("offline")])).success);
}

#[test]
fn fetching_is_never_an_error() {
    let r = done(actions::fetch_remote(false, &vec![]));
    assert_eq!((r.success, r.message.as_str()), (false, "Not a git repository"));
    assert_eq!(run_of(actions::fetch_remote(true, &vec![])).0, list(&["remote"]));
    let r = done(actions::fetch_remote(true, &vec![out("\n")]));
    assert_eq!((r.success, r.message.as_str()), (false, "No remote configured"));
    let r = done(actions::fetch_remote(true, &vec![failed("broken")]));
    assert_eq!((r.success, r.message.as_str()), (false, "GenericFailure, broken"));
    let (args, _) = run_of(actions::fetch_remote(true, &vec![out("origin\n")]));
    assert_eq!(args, list(&["fetch", "--quiet", "--prune"]));
    let r = done(actions::fetch_remote(true, &vec![out("origin\n"), out("")]));
    assert_eq!((r.success, r.message.as_str()), (true, "Fetch successful"));
    assert!(!done(actions::fetch_remote(true, &vec![out("origin\n"), failed("offline")])).success);
}

#[test]
fn remote_branches_get_a_local_branch() {
    assert_eq!(run_of(actions::checkout_branch("main", &vec![])).0, list(&["checkout", "main"]));
    assert_eq!(run_of(actions::checkout_branch("x/", &vec![])).0, list(&["checkout", "x/"]));
    assert_eq!(run_of(actions::checkout_branch("origin/a/b", &vec![])).0, list(&["checkout", "a/b"]));
    let r = done(actions::checkout_branch("origin/a", &vec![out("")]));
    assert_eq!(r.message, "Switched to a");
    let (args, _) = run_of(actions::checkout_branch("origin/a", &vec![failed("none")]));
    assert_eq!(args, list(&["checkout", "-b", "a", "origin/a"]));
    let r = done(actions::checkout_branch("origin/a", &vec![failed("none"), out("")]));
    assert_eq!(r.message, "Switched to a (tracking origin/a)");
    assert_eq!(run_of(actions::create_branch("n", &vec![])).0, list(&["checkout", "-b", "n"]));
    let r = done(actions::create_branch("n", &vec![out("")]));
    assert_eq!((r.success, r.message.as_str()), (true, "Created and switched to n"));
}

#[test]
fn diffs_of_commits_and_of_the_index_are_read() {
    assert_eq!(run_of(diff::get_staged_diff(&vec![])).0, list(&["diff", "--cached"]));
    assert_eq!(done(diff::get_staged_diff(&vec![out("d")])), "d");
    assert!(matches!(diff::get_staged_diff(&vec![failed("bad")]), GitStep::Done(Err(_))));
    assert_eq!(done(diff::get_commit_diff(false, "h", &vec![])).content, "");
    let (args, _) = run_of(diff::get_commit_diff(true, "h", &vec![]));
    assert_eq!(args, list(&["show", "--format=", "--find-renames", "--no-ext-diff", "h"]));
    let binary = "Binary files a and b differ";
    let (args, _) = run_of(diff::get_commit_diff(true, "h", &vec![out(binary)]));
    assert_eq!(args, list(&["show", "--format=", "--text", "--no-ext-diff", "h"]));
    let r = done(diff::get_commit_diff(true, "h", &vec![out(binary), out("")]));
    assert_eq!((r.content.as_str(), r.is_binary), ("Binary file - diff not available", true));
}

#[test]
fn git_is_started_directly_or_through_a_shell() {
    let c = command::build_git_command("bash", false, "/r", &list(&["status"]));
    assert_eq!(c.program, "git");
    assert_eq!(c.args, list(&["-c", "core.quotepath=false", "-c", "safe.directory=*", "status"]));
    assert_eq!(c.current_dir.as_deref(), Some("/r"));
    let c = command::build_git_command("wsl.exe", true, "\\\\wsl$\\U\\r", &list(&["commit", "-m", "it's *"]));
    assert_eq!(c.program, "wsl.exe");
    assert_eq!(c.current_dir, None);
    assert_eq!(c.args[..5], list(&["--cd", "/r", "-e", "bash", "-lc"])[..]);
    assert_eq!(
        c.args[5],
        "'git' '-c' 'core.quotepath=false' '-c' 'safe.directory=*' 'commit' '-m' 'it'\\''s *'"
    );
    match command::not_started(true, "gone") {
        GitReply::Failed(e) => assert!(e.reason.starts_with("git executable not found in PATH")),
        GitReply::Output(_) => panic!("it did not start"),
    }
    match command::not_started(false, "denied") {
        GitReply::Failed(e) => assert_eq!(e.reason, "Failed to execute git: denied"),
        GitReply::Output(_) => panic!("it did not start"),
    }
}
