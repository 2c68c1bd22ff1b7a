//! The state of a working tree, read from `git status --porcelain=v1 -b`.

use vstd::prelude::*;
use vstd::slice::slice_subrange;
use crate::error;
use crate::git::{arguments, GitReply, GitReplyModel, GitStep, GitStepModel};
use crate::text;
use crate::text::is_text;

verus! {

/// One changed file.
pub struct GitFileStatus {
    pub path: String,
    pub old_path: Option<String>,
    pub index_status: String,
    pub workdir_status: String,
    pub status: String,
}

/// The mathematical form of a changed file.
pub struct GitFileStatusModel {
    pub path: Seq<char>,
    pub old_path: Option<Seq<char>>,
    pub index_status: Seq<char>,
    pub workdir_status: Seq<char>,
    pub status: Seq<char>,
}

impl DeepView for GitFileStatus {
    type V = GitFileStatusModel;

    open spec fn deep_view(&self) -> GitFileStatusModel {
        GitFileStatusModel {
            path: self.path@,
            old_path: self.old_path.deep_view(),
            index_status: self.index_status@,
            workdir_status: self.workdir_status@,
            status: self.status@,
        }
    }
}

/// The state of a working tree.
pub struct GitStatusResult {
    pub is_repo: bool,
    pub current_branch: String,
    pub upstream: Option<String>,
    pub ahead: i32,
    pub behind: i32,
    pub files: Vec<GitFileStatus>,
    pub staged_count: i32,
    pub unstaged_count: i32,
    pub untracked_count: i32,
    /// Whether the list of files was cut at the configured limit.
    pub status_limit_hit: bool,
}

/// The mathematical form of the state of a working tree.
pub struct GitStatusModel {
    pub is_repo: bool,
    pub current_branch: Seq<char>,
    pub upstream: Option<Seq<char>>,
    pub ahead: i32,
    pub behind: i32,
    pub files: Seq<GitFileStatusModel>,
    pub staged_count: int,
    pub unstaged_count: int,
    pub untracked_count: int,
    pub status_limit_hit: bool,
}

impl DeepView for GitStatusResult {
    type V = GitStatusModel;

    open spec fn deep_view(&self) -> GitStatusModel {
        GitStatusModel {
            is_repo: self.is_repo,
            current_branch: self.current_branch@,
            upstream: self.upstream.deep_view(),
            ahead: self.ahead,
            behind: self.behind,
            files: self.files.deep_view(),
            staged_count: self.staged_count as int,
            unstaged_count: self.unstaged_count as int,
            untracked_count: self.untracked_count as int,
            status_limit_hit: self.status_limit_hit,
        }
    }
}

// ---------------------------------------------------------------------
// Status letters
// ---------------------------------------------------------------------

/// A status letter as text; a space stands for no status.
pub open spec fn status_text(c: char) -> Seq<char> {
    if c == ' ' {
        Seq::empty()
    } else {
        seq![c]
    }
}

/// The text of a status letter.
pub fn parse_status_char(c: char) -> (out: String)
    ensures
        out@ == status_text(c),
{
    let mut out = String::new();
    if c != ' ' {
        out.push(c);
        proof {
            assert(out@ =~= seq![c]);
        }
    }
    out
}

/// The letter under which a file is shown, given its state in the index and
/// in the working tree.
pub open spec fn display_status(index: Seq<char>, workdir: Seq<char>) -> Seq<char> {
    if index == "R"@ || index == "C"@ {
        index
    } else if workdir == "?"@ {
        "U"@
    } else if workdir == "!"@ {
        "I"@
    } else if index == "A"@ || index == "M"@ || index == "D"@ {
        index
    } else if workdir == "M"@ || workdir == "D"@ {
        workdir
    } else if index.len() > 0 && workdir.len() > 0 {
        "MM"@
    } else if index.len() > 0 {
        index
    } else if workdir.len() > 0 {
        workdir
    } else {
        "?"@
    }
}

/// Chooses the letter under which a file is shown.
pub fn derive_display_status(index_status: &str, workdir_status: &str) -> (out: String)
    ensures
        out@ == display_status(index_status@, workdir_status@),
{
    let index = text::chars_of(index_status);
    let workdir = text::chars_of(workdir_status);
    let index = index.as_slice();
    let workdir = workdir.as_slice();
    if text::equals(index, "R") || text::equals(index, "C") {
        return index_status.to_string();
    }
    if text::equals(workdir, "?") {
        return "U".to_string();
    }
    if text::equals(workdir, "!") {
        return "I".to_string();
    }
    if text::equals(index, "A") || text::equals(index, "M") || text::equals(index, "D") {
        return index_status.to_string();
    }
    if text::equals(workdir, "M") || text::equals(workdir, "D") {
        return workdir_status.to_string();
    }
    if index.len() > 0 && workdir.len() > 0 {
        return "MM".to_string();
    }
    if index.len() > 0 {
        return index_status.to_string();
    }
    if workdir.len() > 0 {
        return workdir_status.to_string();
    }
    "?".to_string()
}

// ---------------------------------------------------------------------
// File lines
// ---------------------------------------------------------------------

/// Whether a line is the one about the branch.
pub open spec fn is_header(line: Seq<char>) -> bool {
    text::begins(line, "## "@)
}

/// Whether a line reports a file: two status letters, a space, a path.
pub open spec fn is_file_line(line: Seq<char>) -> bool {
    !is_header(line) && text::byte_len(line) >= 3
}

/// Whether the path of a file line can be told: its third byte ends a
/// character and at least two characters are there.
pub open spec fn file_line_ok(line: Seq<char>) -> bool {
    line.len() >= 2 && text::index_at_byte(line, 3) is Some
}

/// A path without the quotes around it.
pub open spec fn unquoted(s: Seq<char>) -> Seq<char> {
    if s.len() >= 2 && s[0] == '"' && s.last() == '"' {
        s.subrange(1, s.len() - 1)
    } else {
        s
    }
}

/// The file that a line reports. A rename gives both of its paths, with an
/// arrow between them.
pub open spec fn file_status(line: Seq<char>) -> GitFileStatusModel {
    let rest = line.skip(text::index_at_byte(line, 3)->0);
    let arrow = text::find(rest, " -> "@);
    GitFileStatusModel {
        path: unquoted(
            match arrow {
                Some(i) => rest.skip(i + 4),
                None => rest,
            },
        ),
        old_path: match arrow {
            Some(i) => Some(rest.take(i)),
            None => None,
        },
        index_status: seq![line[0]],
        workdir_status: seq![line[1]],
        status: display_status(status_text(line[0]), status_text(line[1])),
    }
}

/// Reads a file line.
pub fn read_file_line(line: &[char]) -> (r: Option<GitFileStatus>)
    ensures
        match r {
            Some(f) => file_line_ok(line@) && f.deep_view() == file_status(line@),
            None => !file_line_ok(line@),
        },
{
    if line.len() < 2 {
        return None;
    }
    let start: usize = match text::char_index(line, 3) {
        Some(i) => i,
        None => {
            return None;
        },
    };
    let rest = slice_subrange(line, start, line.len());
    proof {
        reveal_strlit(" -> ");
        assert(rest@ =~= line@.skip(start as int));
    }
    let arrow = text::position_str(rest, " -> ");
    let raw: &[char] = match arrow {
        Some(i) => slice_subrange(rest, i + 4, rest.len()),
        None => rest,
    };
    let old_path: Option<String> = match arrow {
        Some(i) => Some(text::string_of(slice_subrange(rest, 0, i))),
        None => None,
    };
    let quoted = raw.len() >= 2 && raw[0] == '"' && raw[raw.len() - 1] == '"';
    let path: &[char] = if quoted {
        slice_subrange(raw, 1, raw.len() - 1)
    } else {
        raw
    };
    let index = parse_status_char(line[0]);
    let workdir = parse_status_char(line[1]);
    let mut index_status = String::new();
    index_status.push(line[0]);
    let mut workdir_status = String::new();
    workdir_status.push(line[1]);
    let f = GitFileStatus {
        path: text::string_of(path),
        old_path,
        index_status,
        workdir_status,
        status: derive_display_status(index.as_str(), workdir.as_str()),
    };
    proof {
        match arrow {
            Some(i) => {
                assert(raw@ =~= rest@.skip(i + 4));
                assert(rest@.subrange(0, i as int) =~= rest@.take(i as int));
            },
            None => {},
        }
        assert(f.index_status@ =~= seq![line@[0]]);
        assert(f.workdir_status@ =~= seq![line@[1]]);
        assert(f.deep_view().old_path == file_status(line@).old_path);
    }
    Some(f)
}

// ---------------------------------------------------------------------
// Branch lines
// ---------------------------------------------------------------------

/// The upstream that a branch line names.
pub open spec fn header_upstream(branch: Seq<char>) -> Option<Seq<char>> {
    match text::find(branch, "..."@) {
        Some(i) => {
            let names = text::words(branch.skip(i + 3));
            if names.len() > 0 {
                Some(names[0])
            } else {
                None
            }
        },
        None => None,
    }
}

/// The branch that a branch line names.
pub open spec fn header_branch(branch: Seq<char>) -> Seq<char> {
    let name = match text::find(branch, "..."@) {
        Some(i) => branch.take(i),
        None => match text::find_char(branch, ' ') {
            Some(i) => branch.take(i),
            None => branch,
        },
    };
    if text::begins(name, "HEAD"@) {
        "HEAD"@
    } else {
        name
    }
}

/// The number at the front of a text, or 0 where no 32-bit number stands
/// there.
pub open spec fn leading_number(s: Seq<char>) -> i32 {
    match text::digits_as_i32(s.take(text::digits_len(s) as int)) {
        Some(n) => n,
        None => 0,
    }
}

/// Whether the key occurs in the lower-case form of a branch line.
pub open spec fn has_count(lower: Seq<char>, key: Seq<char>) -> bool {
    text::find(lower, key) is Some
}

/// Where in the branch line the count after a key begins. The key is
/// searched in the lower-case form, and its byte position there is taken as
/// a byte position in the line.
pub open spec fn count_start(branch: Seq<char>, lower: Seq<char>, key: Seq<char>) -> Option<int> {
    match text::find_byte(lower, key) {
        Some(b) => text::index_at_byte(branch, b + text::byte_len(key)),
        None => None,
    }
}

/// Whether the counts of a branch line can be told: where a key occurs, its
/// end falls between two characters of the line.
pub open spec fn header_ok(branch: Seq<char>, lower: Seq<char>) -> bool {
    &&& has_count(lower, "ahead "@) ==> count_start(branch, lower, "ahead "@) is Some
    &&& has_count(lower, "behind "@) ==> count_start(branch, lower, "behind "@) is Some
}

/// The count that a branch line gives after a key.
pub open spec fn header_count(branch: Seq<char>, lower: Seq<char>, key: Seq<char>) -> Option<i32> {
    match count_start(branch, lower, key) {
        Some(i) => Some(leading_number(branch.skip(i))),
        None => None,
    }
}

/// Reads the count after a key. The outer `None` says that the end of the
/// key falls inside a character of the line or behind its end.
pub fn read_count(branch: &[char], lower: &[char], key: &str) -> (r: Option<Option<i32>>)
    ensures
        match r {
            Some(n) => (has_count(lower@, key@) ==> count_start(branch@, lower@, key@) is Some)
                && n == header_count(branch@, lower@, key@),
            None => has_count(lower@, key@) && count_start(branch@, lower@, key@) is None,
        },
{
    let key_chars = text::chars_of(key);
    match text::position(lower, key_chars.as_slice()) {
        None => Some(None),
        Some(i) => {
            let before = slice_subrange(lower, 0, i);
            proof {
                assert(before@ =~= lower@.take(i as int));
            }
            let before_bytes: u128 = text::bytes_in(before);
            let key_bytes: u128 = text::bytes_in(key_chars.as_slice());
            let before_len: usize = before.len();
            let key_len: usize = key_chars.len();
            assert(before_bytes <= 4 * before_len && key_bytes <= 4 * key_len);
            let bytes: u128 = before_bytes + key_bytes;
            match text::char_index(branch, bytes) {
                None => None,
                Some(k) => {
                    let rest = slice_subrange(branch, k, branch.len());
                    let n: usize = text::digits_length(rest);
                    let digits = slice_subrange(rest, 0, n);
                    proof {
                        assert(rest@ =~= branch@.skip(k as int));
                        assert(digits@ =~= rest@.take(n as int));
                    }
                    let value: i32 = match text::read_i32(digits) {
                        Some(v) => v,
                        None => 0,
                    };
                    Some(Some(value))
                },
            }
        },
    }
}

/// Reads the name of the upstream.
pub fn read_upstream(branch: &[char]) -> (r: Option<String>)
    ensures
        r.deep_view() == header_upstream(branch@),
{
    proof {
        reveal_strlit("...");
    }
    let total: usize = branch.len();
    match text::position_str(branch, "...") {
        Some(i) => {
            let after = slice_subrange(branch, i + 3, total);
            proof {
                assert(after@ =~= branch@.skip(i + 3));
            }
            let names = text::words_of(after);
            if names.len() > 0 {
                proof {
                    assert(text::texts(names@)[0] == names@[0]@);
                }
                Some(text::string_of(names[0].as_slice()))
            } else {
                None
            }
        },
        None => None,
    }
}

/// Reads the name of the branch.
pub fn read_branch(branch: &[char]) -> (r: String)
    ensures
        r@ == header_branch(branch@),
{
    let name: &[char] = match text::position_str(branch, "...") {
        Some(i) => slice_subrange(branch, 0, i),
        None => match text::position_char(branch, ' ') {
            Some(i) => slice_subrange(branch, 0, i),
            None => branch,
        },
    };
    proof {
        match text::find(branch@, "..."@) {
            Some(i) => {
                assert(name@ =~= branch@.take(i));
            },
            None => match text::find_char(branch@, ' ') {
                Some(i) => {
                    assert(name@ =~= branch@.take(i));
                },
                None => {},
            },
        }
    }
    if text::starts_with(name, "HEAD") {
        "HEAD".to_string()
    } else {
        text::string_of(name)
    }
}

// ---------------------------------------------------------------------
// The whole output
// ---------------------------------------------------------------------

/// The last of the values that a function gives for the lines of a text.
pub open spec fn latest<T>(lines: Seq<Seq<char>>, f: spec_fn(Seq<char>) -> Option<T>) -> Option<T>
    decreases lines.len(),
{
    if lines.len() == 0 {
        None
    } else {
        match f(lines.last()) {
            Some(v) => Some(v),
            None => latest(lines.drop_last(), f),
        }
    }
}

/// The branch that a line names.
pub open spec fn branch_of() -> spec_fn(Seq<char>) -> Option<Seq<char>> {
    |line: Seq<char>|
        if is_header(line) {
            Some(header_branch(line.skip(3)))
        } else {
            None
        }
}

/// The upstream branch that a line names.
pub open spec fn upstream_of() -> spec_fn(Seq<char>) -> Option<Seq<char>> {
    |line: Seq<char>|
        if is_header(line) {
            header_upstream(line.skip(3))
        } else {
            None
        }
}

/// The number that a line gives behind a word.
pub open spec fn count_of(key: Seq<char>) -> spec_fn(Seq<char>) -> Option<i32> {
    |line: Seq<char>|
        if is_header(line) {
            header_count(line.skip(3), text::lowercase(line.skip(3)), key)
        } else {
            None
        }
}

/// The lines that report files.
pub open spec fn file_lines(lines: Seq<Seq<char>>) -> Seq<Seq<char>> {
    lines.filter(|line: Seq<char>| is_file_line(line))
}

/// The file lines within the limit. A limit that is not positive is no
/// limit.
pub open spec fn kept_lines(lines: Seq<Seq<char>>, limit: int) -> Seq<Seq<char>> {
    let all = file_lines(lines);
    if 0 < limit < all.len() {
        all.take(limit)
    } else {
        all
    }
}

/// The files of the lines within the limit.
pub open spec fn kept_files(lines: Seq<Seq<char>>, limit: int) -> Seq<GitFileStatusModel> {
    kept_lines(lines, limit).map_values(|line: Seq<char>| file_status(line))
}

/// Whether Git does not know a file, or ignores it.
pub open spec fn is_untracked(f: GitFileStatusModel) -> bool {
    f.workdir_status == "?"@ || f.workdir_status == "!"@
}

/// Whether a file has a change in the index.
pub open spec fn is_staged(f: GitFileStatusModel) -> bool {
    !is_untracked(f) && f.index_status.len() > 0 && f.index_status != " "@ && f.index_status
        != "?"@
}

/// Whether a file has a change in the working directory.
pub open spec fn is_unstaged(f: GitFileStatusModel) -> bool {
    !is_untracked(f) && f.workdir_status.len() > 0 && f.workdir_status != " "@
}

/// How many files have a property.
pub open spec fn count_files(
    files: Seq<GitFileStatusModel>,
    p: spec_fn(GitFileStatusModel) -> bool,
) -> int {
    files.filter(p).len() as int
}

/// Whether every branch line, and every file line within the limit, can be
/// read, and the files can be counted with a 32-bit signed number.
pub open spec fn status_ok(out: Seq<char>, limit: int) -> bool {
    let lines = text::lines(out);
    &&& forall|i: int|
        0 <= i < lines.len() && is_header(#[trigger] lines[i]) ==> header_ok(
            lines[i].skip(3),
            text::lowercase(lines[i].skip(3)),
        )
    &&& forall|i: int|
        0 <= i < kept_lines(lines, limit).len() ==> file_line_ok(
            #[trigger] kept_lines(lines, limit)[i],
        )
    &&& kept_lines(lines, limit).len() <= i32::MAX
}

/// The value of an option, or the given one.
pub open spec fn or_value<T>(o: Option<T>, default: T) -> T {
    match o {
        Some(v) => v,
        None => default,
    }
}

/// The state that the output of `git status` reports.
pub open spec fn status_model(out: Seq<char>, limit: int) -> GitStatusModel {
    let lines = text::lines(out);
    let files = kept_files(lines, limit);
    GitStatusModel {
        is_repo: true,
        current_branch: or_value(latest(lines, branch_of()), Seq::empty()),
        upstream: latest(lines, upstream_of()),
        ahead: or_value(latest(lines, count_of("ahead "@)), 0),
        behind: or_value(latest(lines, count_of("behind "@)), 0),
        files,
        staged_count: count_files(files, |f: GitFileStatusModel| is_staged(f)),
        unstaged_count: count_files(files, |f: GitFileStatusModel| is_unstaged(f)),
        untracked_count: count_files(files, |f: GitFileStatusModel| is_untracked(f)),
        status_limit_hit: 0 < limit < file_lines(lines).len(),
    }
}

/// The state of a directory that is no repository.
pub open spec fn no_repository() -> GitStatusModel {
    GitStatusModel {
        is_repo: false,
        current_branch: Seq::empty(),
        upstream: None,
        ahead: 0,
        behind: 0,
        files: Seq::empty(),
        staged_count: 0,
        unstaged_count: 0,
        untracked_count: 0,
        status_limit_hit: false,
    }
}

/// The state of a directory that is no repository.
pub fn not_a_repository() -> (r: GitStatusResult)
    ensures
        r.deep_view() == no_repository(),
{
    let r = GitStatusResult {
        is_repo: false,
        current_branch: String::new(),
        upstream: None,
        ahead: 0,
        behind: 0,
        files: Vec::new(),
        staged_count: 0,
        unstaged_count: 0,
        untracked_count: 0,
        status_limit_hit: false,
    };
    proof {
        assert(r.files.deep_view() =~= Seq::<GitFileStatusModel>::empty());
        assert(r.current_branch@ =~= Seq::<char>::empty());
    }
    r
}

/// Counts the staged, unstaged and untracked files.
pub fn count_statuses(files: &Vec<GitFileStatus>) -> (r: (i32, i32, i32))
    requires
        files@.len() <= i32::MAX,
    ensures
        r.0 == count_files(files.deep_view(), |f: GitFileStatusModel| is_staged(f)),
        r.1 == count_files(files.deep_view(), |f: GitFileStatusModel| is_unstaged(f)),
        r.2 == count_files(files.deep_view(), |f: GitFileStatusModel| is_untracked(f)),
{
    let mut staged: i32 = 0;
    let mut unstaged: i32 = 0;
    let mut untracked: i32 = 0;
    let ghost all = files.deep_view();
    let ghost ps = |f: GitFileStatusModel| is_staged(f);
    let ghost pu = |f: GitFileStatusModel| is_unstaged(f);
    let ghost pt = |f: GitFileStatusModel| is_untracked(f);
    let mut i: usize = 0;
    while i < files.len()
        invariant
            i <= files@.len() <= i32::MAX,
            all == files.deep_view(),
            0 <= staged <= i,
            0 <= unstaged <= i,
            0 <= untracked <= i,
            ps == (|f: GitFileStatusModel| is_staged(f)),
            pu == (|f: GitFileStatusModel| is_unstaged(f)),
            pt == (|f: GitFileStatusModel| is_untracked(f)),
            staged == all.take(i as int).filter(ps).len(),
            unstaged == all.take(i as int).filter(pu).len(),
            untracked == all.take(i as int).filter(pt).len(),
        decreases files@.len() - i,
    {
        let f = &files[i];
        proof {
            assert(all.take(i + 1).drop_last() =~= all.take(i as int));
            assert(all.take(i + 1).last() == f.deep_view());
            reveal_with_fuel(Seq::filter, 2);
            reveal_strlit("?");
            reveal_strlit(" ");
        }
        if is_text(&f.workdir_status, "?") || is_text(&f.workdir_status, "!") {
            untracked += 1;
        } else {
            if f.index_status.as_str().unicode_len() > 0 && !is_text(&f.index_status, " ")
                && !is_text(&f.index_status, "?") {
                staged += 1;
            }
            if f.workdir_status.as_str().unicode_len() > 0 && !is_text(&f.workdir_status, " ") {
                unstaged += 1;
            }
        }
        i += 1;
    }
    proof {
        assert(all.take(i as int) =~= all);
    }
    (staged, unstaged, untracked)
}

/// What one more line adds to the file lines, and to those within the limit.
pub proof fn lemma_kept_step(lines: Seq<Seq<char>>, i: int, limit: int)
    requires
        0 <= i < lines.len(),
    ensures
        file_lines(lines.take(i + 1)) == if is_file_line(lines[i]) {
            file_lines(lines.take(i)).push(lines[i])
        } else {
            file_lines(lines.take(i))
        },
        file_lines(lines.take(i)).len() <= i,
        kept_lines(lines.take(i + 1), limit) == if is_file_line(lines[i]) && !(0 < limit
            <= file_lines(lines.take(i)).len()) {
            kept_lines(lines.take(i), limit).push(lines[i])
        } else {
            kept_lines(lines.take(i), limit)
        },
    decreases i,
{
    let p = |line: Seq<char>| is_file_line(line);
    let before = lines.take(i);
    let after = lines.take(i + 1);
    assert(after.drop_last() =~= before);
    reveal_with_fuel(Seq::filter, 2);
    before.lemma_filter_len(p);
    let a = file_lines(before);
    let b = file_lines(after);
    if is_file_line(lines[i]) {
        assert(b == a.push(lines[i]));
        if 0 < limit <= a.len() {
            assert(b.take(limit) =~= (if limit < a.len() { a.take(limit) } else { a }));
        }
    }
}

proof fn lemma_kept_prefix(lines: Seq<Seq<char>>, i: int, limit: int)
    requires
        0 <= i <= lines.len(),
    ensures
        kept_lines(lines.take(i), limit).is_prefix_of(kept_lines(lines, limit)),
    decreases lines.len() - i,
{
    if i < lines.len() {
        lemma_kept_step(lines, i, limit);
        lemma_kept_prefix(lines, i + 1, limit);
        let a = kept_lines(lines.take(i), limit);
        let b = kept_lines(lines.take(i + 1), limit);
        let c = kept_lines(lines, limit);
        assert(a =~= b.take(a.len() as int));
        assert(a =~= c.take(a.len() as int));
    } else {
        assert(lines.take(i) =~= lines);
        let c = kept_lines(lines, limit);
        assert(c =~= c.take(c.len() as int));
    }
}

/// What is known of the lines read so far.
struct Progress {
    branch: Option<String>,
    upstream: Option<String>,
    ahead: Option<i32>,
    behind: Option<i32>,
    files: Vec<GitFileStatus>,
    limit_hit: bool,
}

impl Progress {
    spec fn holds(self, lines: Seq<Seq<char>>, limit: int) -> bool {
        &&& self.branch.deep_view() == latest(lines, branch_of())
        &&& self.upstream.deep_view() == latest(lines, upstream_of())
        &&& self.ahead == latest(lines, count_of("ahead "@))
        &&& self.behind == latest(lines, count_of("behind "@))
        &&& self.files.deep_view() == kept_files(lines, limit)
        &&& self.limit_hit == (0 < limit < file_lines(lines).len())
    }

    /// Takes one more line. The result says whether the line could be read.
    fn advance(&mut self, line: &Vec<char>, limit: i32, Ghost(lines): Ghost<Seq<Seq<char>>>) -> (ok:
        bool)
        requires
            lines.len() > 0,
            line@ == lines.last(),
            old(self).holds(lines.drop_last(), limit as int),
        ensures
            ok ==> final(self).holds(lines, limit as int),
            ok == if is_header(line@) {
                header_ok(line@.skip(3), text::lowercase(line@.skip(3)))
            } else {
                !is_file_line(line@) || 0 < limit <= old(self).files@.len() || file_line_ok(line@)
            },
    {
        proof {
            let n = lines.len() - 1;
            lemma_kept_step(lines, n, limit as int);
            assert(lines.take(n + 1) =~= lines);
            assert(lines.take(n) =~= lines.drop_last());
            reveal_strlit("## ");
        }
        let total: usize = line.len();
        if text::starts_with(line.as_slice(), "## ") {
            let branch = slice_subrange(line.as_slice(), 3, total);
            proof {
                assert(branch@ =~= line@.skip(3));
            }
            let lower_text = text::to_lowercase(text::string_of(branch).as_str());
            let lower = text::chars_of(lower_text.as_str());
            let ahead: Option<i32> = match read_count(branch, lower.as_slice(), "ahead ") {
                Some(n) => n,
                None => {
                    return false;
                },
            };
            let behind: Option<i32> = match read_count(branch, lower.as_slice(), "behind ") {
                Some(n) => n,
                None => {
                    return false;
                },
            };
            if ahead.is_some() {
                self.ahead = ahead;
            }
            if behind.is_some() {
                self.behind = behind;
            }
            let upstream = read_upstream(branch);
            if upstream.is_some() {
                self.upstream = upstream;
            }
            self.branch = Some(read_branch(branch));
            return true;
        }
        if !text::takes_bytes(line.as_slice(), 3) {
            return true;
        }
        proof {
            let before = lines.drop_last();
            assert(self.files.deep_view().len() == self.files@.len());
            assert(kept_files(before, limit as int).len() == kept_lines(before, limit as int).len());
        }
        if limit > 0 && self.files.len() >= limit as usize {
            self.limit_hit = true;
            return true;
        }
        match read_file_line(line.as_slice()) {
            None => false,
            Some(f) => {
                let ghost before = self.files.deep_view();
                self.files.push(f);
                proof {
                    assert(self.files.deep_view() =~= before.push(f.deep_view()));
                    assert(kept_files(lines, limit as int) =~= before.push(file_status(line@)));
                }
                true
            },
        }
    }
}

/// Reads the output of `git status --porcelain=v1 -b`. A limit that is not
/// positive is no limit. `None` says that a line could not be taken apart
/// at the bytes where its parts begin, or that there are more files than a
/// 32-bit signed number counts.
pub fn read_status(out: &str, limit: i32) -> (r: Option<GitStatusResult>)
    ensures
        match r {
            Some(s) => status_ok(out@, limit as int) && s.deep_view() == status_model(
                out@,
                limit as int,
            ),
            None => !status_ok(out@, limit as int),
        },
{
    let chars = text::chars_of(out);
    let lines = text::lines_of(chars.as_slice());
    let ghost all = text::texts(lines@);
    let mut progress = Progress {
        branch: None,
        upstream: None,
        ahead: None,
        behind: None,
        files: Vec::new(),
        limit_hit: false,
    };
    proof {
        assert(all.take(0) =~= Seq::<Seq<char>>::empty());
        assert(file_lines(all.take(0)) =~= Seq::<Seq<char>>::empty());
        assert(kept_files(all.take(0), limit as int) =~= Seq::<GitFileStatusModel>::empty());
        assert(progress.files.deep_view() =~= Seq::<GitFileStatusModel>::empty());
    }
    let mut i: usize = 0;
    while i < lines.len()
        invariant
            i <= lines@.len(),
            all == text::texts(lines@),
            all == text::lines(out@),
            progress.holds(all.take(i as int), limit as int),
            forall|j: int|
                0 <= j < i && is_header(#[trigger] all[j]) ==> header_ok(
                    all[j].skip(3),
                    text::lowercase(all[j].skip(3)),
                ),
            forall|j: int|
                0 <= j < kept_lines(all.take(i as int), limit as int).len() ==> file_line_ok(
                    #[trigger] kept_lines(all.take(i as int), limit as int)[j],
                ),
        decreases lines@.len() - i,
    {
        let ghost before = all.take(i as int);
        let ghost after = all.take(i + 1);
        let ghost was = progress;
        proof {
            assert(after.drop_last() =~= before);
            assert(after.last() == lines@[i as int]@);
            assert(was.files.deep_view().len() == was.files@.len());
            assert(kept_files(before, limit as int).len() == kept_lines(before, limit as int).len());
            lemma_kept_step(all, i as int, limit as int);
            lemma_kept_prefix(all, i + 1, limit as int);
        }
        let ok = progress.advance(&lines[i], limit, Ghost(after));
        if !ok {
            proof {
                let line = all[i as int];
                assert(line == lines@[i as int]@);
                if !is_header(line) {
                    let kept = kept_lines(after, limit as int);
                    let n = kept.len() - 1;
                    assert(kept[n] == line);
                    assert(kept_lines(all, limit as int)[n] == kept[n]);
                }
            }
            return None;
        }
        proof {
            let kept = kept_lines(after, limit as int);
            assert forall|j: int| 0 <= j < kept.len() implies file_line_ok(#[trigger] kept[j]) by {
                let old_kept = kept_lines(before, limit as int);
                if j < old_kept.len() {
                    assert(kept[j] == old_kept[j]);
                }
            }
            assert(all[i as int] == lines@[i as int]@);
        }
        i += 1;
    }
    proof {
        assert(all.take(i as int) =~= all);
        assert(progress.files.deep_view().len() == progress.files@.len());
        assert(kept_files(all, limit as int).len() == kept_lines(all, limit as int).len());
    }
    if progress.files.len() > 2147483647 {
        return None;
    }
    let (staged_count, unstaged_count, untracked_count) = count_statuses(&progress.files);
    let current_branch = match progress.branch {
        Some(b) => b,
        None => String::new(),
    };
    let r = GitStatusResult {
        is_repo: true,
        current_branch,
        upstream: progress.upstream,
        ahead: match progress.ahead {
            Some(n) => n,
            None => 0,
        },
        behind: match progress.behind {
            Some(n) => n,
            None => 0,
        },
        files: progress.files,
        staged_count,
        unstaged_count,
        untracked_count,
        status_limit_hit: progress.limit_hit,
    };
    proof {
        if latest(all, branch_of()) is None {
            assert(current_branch@ =~= Seq::<char>::empty());
        }
    }
    Some(r)
}

/// The next step of reading the state of a directory. `None` stands for
/// output that cannot be taken apart.
pub open spec fn status_step(
    is_repo: bool,
    limit: int,
    replies: Seq<GitReplyModel>,
) -> Option<GitStepModel<GitStatusModel>> {
    if !is_repo {
        Some(GitStepModel::Done(Ok(no_repository())))
    } else if replies.len() == 0 {
        Some(
            GitStepModel::Run {
                args: seq!["status"@, "--porcelain=v1"@, "-b"@, "--find-renames"@, "-uall"@],
                raw: false,
            },
        )
    } else {
        match replies[0] {
            GitReplyModel::Output(out) => if status_ok(out, limit) {
                Some(GitStepModel::Done(Ok(status_model(out, limit))))
            } else {
                None
            },
            GitReplyModel::Failed(e) => if text::occurs(
                error::error_text(e),
                "not a git repository"@,
            ) {
                Some(GitStepModel::Done(Ok(no_repository())))
            } else {
                Some(GitStepModel::Done(Err(e)))
            },
        }
    }
}

/// Reads the state of a directory. A directory without a repository, or
/// with one that `git` does not take for a repository, is reported as such;
/// any other failure is passed on.
pub fn get_git_status(is_repo: bool, status_limit: i32, replies: &Vec<GitReply>) -> (r: Option<
    GitStep<GitStatusResult>,
>)
    ensures
        r.deep_view() == status_step(is_repo, status_limit as int, replies.deep_view()),
{
    if !is_repo {
        return Some(GitStep::Done(Ok(not_a_repository())));
    }
    if replies.len() == 0 {
        let args = arguments(
            &["status", "--porcelain=v1", "-b", "--find-renames", "-uall"],
        );
        proof {
            assert(args.deep_view() =~= seq![
                "status"@,
                "--porcelain=v1"@,
                "-b"@,
                "--find-renames"@,
                "-uall"@,
            ]);
        }
        return Some(GitStep::Run { args, raw: false });
    }
    match &replies[0] {
        GitReply::Output(out) => match read_status(out.as_str(), status_limit) {
            Some(s) => Some(GitStep::Done(Ok(s))),
            None => None,
        },
        GitReply::Failed(e) => {
            let shown = e.text();
            let chars = text::chars_of(shown.as_str());
            if text::contains_str(chars.as_slice(), "not a git repository") {
                Some(GitStep::Done(Ok(not_a_repository())))
            } else {
                Some(GitStep::Done(Err(e.duplicate())))
            }
        },
    }
}

} // verus!
