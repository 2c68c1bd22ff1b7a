//! What holds of sensitive commands, of the files of themes, and of entries
//! of a workspace.

use vstd::prelude::*;
use crate::checkpoint::path_laws;
use crate::checkpoint::paths;
use crate::error;
use crate::error::ErrorModel;
use crate::sensitive;
use crate::sensitive::{CandidateModel, FoundModel, MatchModel, RuleModel};
use crate::text;
use crate::text_laws;
use crate::theme;
use crate::theme::ThemeFile;
use crate::workspace;
use crate::workspace::{PathSizeModel, SizeModel};

verus! {

// ---------------------------------------------------------------------
// Errors
// ---------------------------------------------------------------------

/// An error is told by its kind and, where it has one, its reason.
pub proof fn law_errors_are_told(reason: Seq<char>)
    ensures
        reason.len() > 0 ==> error::error_text(error::failure(reason)) == "GenericFailure, "@
            + reason,
        reason.len() > 0 ==> error::error_text(error::invalid(reason)) == "InvalidArg, "@ + reason,
        reason.len() == 0 ==> error::error_text(error::failure(reason)) == "GenericFailure"@,
        reason.len() == 0 ==> error::error_text(error::invalid(reason)) == "InvalidArg"@,
{
    reveal_strlit("GenericFailure, ");
    reveal_strlit("GenericFailure");
    reveal_strlit("InvalidArg, ");
    reveal_strlit("InvalidArg");
    reveal_strlit(", ");
    assert("GenericFailure"@ + ", "@ =~= "GenericFailure, "@);
    assert("InvalidArg"@ + ", "@ =~= "InvalidArg, "@);
}

// ---------------------------------------------------------------------
// Sensitive commands
// ---------------------------------------------------------------------

/// Whether a match reports a rule that holds of a candidate: it has the
/// identifier and the pattern of the rule, and its description, with the
/// script in which the command stands, if it stands in one.
pub open spec fn reports(m: MatchModel, rule: RuleModel, candidate: CandidateModel) -> bool {
    &&& m.command_id == rule.command_id
    &&& m.pattern == rule.pattern
    &&& candidate.source is None ==> m.description == rule.description
    &&& candidate.source is Some ==> m.description == rule.description + " (via script "@
        + candidate.source->0 + ")"@
}

/// Whether every match reports a rule that is switched on and holds of a
/// candidate.
pub open spec fn all_report(
    found: FoundModel,
    rules: Seq<RuleModel>,
    candidates: Seq<CandidateModel>,
    hits: Seq<Seq<bool>>,
) -> bool {
    forall|k: int|
        0 <= k < found.matches.len() ==> exists|i: int, j: int|
            #![trigger candidates[i], rules[j]]
            0 <= i < candidates.len() && 0 <= j < rules.len() && rules[j].enabled && hits[i][j]
                && reports(#[trigger] found.matches[k], rules[j], candidates[i])
}

/// Only rules that are switched on and hold of a command are reported.
pub proof fn law_only_matches_are_reported(
    rules: Seq<RuleModel>,
    candidates: Seq<CandidateModel>,
    hits: Seq<Seq<bool>>,
    n: int,
)
    requires
        0 <= n <= candidates.len(),
    ensures
        all_report(
            sensitive::found_in_all(rules, candidates, hits, n),
            rules,
            candidates,
            hits,
        ),
    decreases n,
{
    if n > 0 {
        law_only_matches_are_reported(rules, candidates, hits, n - 1);
        lemma_text_reports(
            sensitive::found_in_all(rules, candidates, hits, n - 1),
            rules,
            candidates,
            hits,
            n - 1,
            rules.len() as int,
        );
    }
}

proof fn lemma_text_reports(
    found: FoundModel,
    rules: Seq<RuleModel>,
    candidates: Seq<CandidateModel>,
    hits: Seq<Seq<bool>>,
    i: int,
    n: int,
)
    requires
        0 <= i < candidates.len(),
        0 <= n <= rules.len(),
        all_report(found, rules, candidates, hits),
    ensures
        all_report(
            sensitive::found_in_text(found, rules, candidates[i], hits[i], n),
            rules,
            candidates,
            hits,
        ),
    decreases n,
{
    if n > 0 {
        lemma_text_reports(found, rules, candidates, hits, i, n - 1);
        let before = sensitive::found_in_text(found, rules, candidates[i], hits[i], n - 1);
        let after = sensitive::found_in_text(found, rules, candidates[i], hits[i], n);
        assert forall|k: int| 0 <= k < after.matches.len() implies exists|a: int, b: int|
            #![trigger candidates[a], rules[b]]
            0 <= a < candidates.len() && 0 <= b < rules.len() && rules[b].enabled && hits[a][b]
                && reports(#[trigger] after.matches[k], rules[b], candidates[a]) by {
            if k < before.matches.len() {
                assert(after.matches[k] == before.matches[k]);
                let (a, b) = choose|a: int, b: int|
                    #![trigger candidates[a], rules[b]]
                    0 <= a < candidates.len() && 0 <= b < rules.len() && rules[b].enabled
                        && hits[a][b] && reports(before.matches[k], rules[b], candidates[a]);
                assert(reports(after.matches[k], rules[b], candidates[a]));
            } else {
                assert(reports(after.matches[k], rules[n - 1], candidates[i]));
            }
        }
    }
}

/// A rule that is switched on and holds of a command is reported, once for
/// every script in which such a command stands and once for the commands
/// themselves. The result for a list of commands and rules where one rule
/// holds of one command is that match alone.
pub proof fn law_a_match_is_reported(rule: RuleModel, candidate: CandidateModel, hit: bool)
    ensures
        ({
            let found = sensitive::found_in_all(seq![rule], seq![candidate], seq![seq![hit]], 1);
            &&& rule.enabled && hit ==> found.matches.len() == 1 && reports(
                found.matches[0],
                rule,
                candidate,
            )
            &&& !rule.enabled || !hit ==> found.matches.len() == 0
        }),
{
    reveal_with_fuel(sensitive::found_in_all, 2);
    reveal_with_fuel(sensitive::found_in_text, 2);
}

/// Whether a rule holds of a command is told by its pattern; a pattern that
/// is no expression holds of nothing.
pub proof fn law_rules_hold_by_their_patterns(
    rules: Seq<RuleModel>,
    candidates: Seq<CandidateModel>,
    i: int,
    j: int,
)
    requires
        0 <= i < candidates.len(),
        0 <= j < rules.len(),
    ensures
        sensitive::hits_of(rules, candidates).len() == candidates.len(),
        sensitive::hits_of(rules, candidates)[i].len() == rules.len(),
        sensitive::hits_of(rules, candidates)[i][j] <==> sensitive::expression_matches(
            rules[j].pattern,
            candidates[i].text,
        ) == Some(true),
{
}

// ---------------------------------------------------------------------
// Files of themes
// ---------------------------------------------------------------------

/// Whether an extension is one of an image.
pub open spec fn is_image_extension(e: Seq<char>) -> bool {
    e == "png"@ || e == "jpg"@ || e == "jpeg"@ || e == "gif"@ || e == "webp"@ || e == "bmp"@ || e
        == "svg"@
}

/// The extension of a name is what stands behind its last dot, unless that
/// dot is the first character; a name of two dots has none.
pub proof fn law_extensions_of_names(stem: Seq<char>, e: Seq<char>)
    requires
        !e.contains('.'),
    ensures
        stem.len() > 0 && stem + seq!['.'] + e != ".."@ ==> theme::name_extension(
            stem + seq!['.'] + e,
        ) == Some(e),
        theme::name_extension(e) is None,
        theme::name_extension(seq!['.'] + e) is None,
        theme::name_extension(".."@) is None,
{
    lemma_last_dot(stem + seq!['.'], e);
    lemma_last_dot(seq!['.'], e);
    lemma_last_dot(Seq::empty(), e);
    let s = stem + seq!['.'] + e;
    assert(s.skip(stem.len() as int + 1) =~= e);
    assert(Seq::<char>::empty() + e =~= e);
}

proof fn lemma_last_dot(front: Seq<char>, e: Seq<char>)
    requires
        !e.contains('.'),
        front.len() == 0 || front.last() == '.',
    ensures
        theme::last_dot(front + e) == (if front.len() == 0 {
            None
        } else {
            Some(front.len() - 1)
        }),
    decreases e.len(),
{
    let s = front + e;
    if e.len() == 0 {
        assert(s =~= front);
    } else {
        assert(s.last() == e[e.len() - 1]);
        assert(e.contains(e[e.len() - 1]));
        assert(s.drop_last() =~= front + e.drop_last());
        assert(!e.drop_last().contains('.')) by {
            if e.drop_last().contains('.') {
                let k = choose|k: int| 0 <= k < e.drop_last().len() && e.drop_last()[k] == '.';
                assert(e[k] == '.');
            }
        }
        lemma_last_dot(front, e.drop_last());
    }
}

/// A path has the extension of its last part.
pub proof fn law_extensions_of_paths(directory: Seq<char>, name: Seq<char>)
    requires
        name.len() > 0,
        name != "."@,
        !name.contains('/'),
    ensures
        theme::path_extension(directory + seq!['/'] + name) == theme::name_extension(name),
        theme::path_extension(name) == theme::name_extension(name),
{
    path_laws::law_parts_of_paths(directory, name, name);
}

/// A copy keeps the extension of its source, in small letters, where that is
/// one of an image; any other background becomes a PNG by name, and a cursor
/// is always an SVG.
pub proof fn law_extensions_of_copies(source: Seq<char>, e: Seq<char>)
    ensures
        theme::path_extension(source) == Some(e) && is_image_extension(text::lowercase(e))
            ==> theme::copy_extension(ThemeFile::Background, source) == text::lowercase(e),
        theme::path_extension(source) == Some(e) && !is_image_extension(text::lowercase(e))
            ==> theme::copy_extension(ThemeFile::Background, source) == "png"@,
        theme::path_extension(source) is None ==> theme::copy_extension(
            ThemeFile::Background,
            source,
        ) == "png"@,
        theme::copy_extension(ThemeFile::StreamCursor, source) == "svg"@,
        theme::may_copy(ThemeFile::Background, source),
        theme::may_copy(ThemeFile::StreamCursor, source) <==> theme::path_extension(source) is Some
            && text::lowercase(theme::path_extension(source)->0) == "svg"@,
{
    let all = theme::extensions_of(ThemeFile::Background);
    let l = text::lowercase(e);
    assert(all[0] == "png"@ && all[1] == "jpg"@ && all[2] == "jpeg"@ && all[3] == "gif"@);
    assert(all[4] == "webp"@ && all[5] == "bmp"@ && all[6] == "svg"@);
    if all.contains(l) {
        let k = choose|k: int| 0 <= k < all.len() && all[k] == l;
        assert(0 <= k < 7);
    }
    let one = theme::extensions_of(ThemeFile::StreamCursor);
    assert(one[0] == "svg"@);
    match theme::path_extension(source) {
        Some(x) => {
            if one.contains(text::lowercase(x)) {
                let k = choose|k: int| 0 <= k < one.len() && one[k] == text::lowercase(x);
                assert(k == 0);
            }
        },
        None => {},
    }
}

/// A source is taken by its path without white space around it, where there
/// is a file and it may be copied; a missing path is told before a missing
/// file, and that before a wrong kind.
pub proof fn law_sources_of_copies(kind: ThemeFile, source: Seq<char>, is_there: bool)
    ensures
        ({
            let r = theme::source_of(kind, source, is_there);
            let path = text::trimmed(source);
            &&& path.len() > 0 && is_there && theme::may_copy(kind, path) ==> r == Ok::<
                Seq<char>,
                ErrorModel,
            >(path)
            &&& path.len() == 0 ==> r is Err && r->Err_0.status == error::ErrorStatus::InvalidArg
            &&& path.len() > 0 && !is_there ==> r is Err && r->Err_0.status
                == error::ErrorStatus::GenericFailure
            &&& path.len() > 0 && is_there && !theme::may_copy(kind, path) ==> r is Err
                && r->Err_0.status == error::ErrorStatus::InvalidArg
        }),
{
}

/// The name of a copy tells what it is, when it was made, and its extension.
pub proof fn law_names_of_copies(stamp: Seq<char>, suffix: Seq<char>, e: Seq<char>)
    ensures
        theme::copy_name(ThemeFile::Background, stamp, suffix, e) == "bg-"@ + stamp + "-"@ + suffix
            + "."@ + e,
        theme::copy_name(ThemeFile::StreamCursor, stamp, suffix, e) == "cursor-"@ + stamp + "-"@
            + suffix + "."@ + e,
        theme::directory_of(ThemeFile::Background) == "backgrounds"@,
        theme::directory_of(ThemeFile::StreamCursor) == "stream-cursors"@,
{
    reveal_strlit("bg-");
    reveal_strlit("bg");
    reveal_strlit("cursor-");
    reveal_strlit("cursor");
    reveal_strlit("-");
    assert("bg"@ + "-"@ =~= "bg-"@);
    assert("cursor"@ + "-"@ =~= "cursor-"@);
}

/// A file is removed only where it lies below the directory of its kind; one
/// that lies elsewhere is refused, and one that is not there, or has no
/// path, is let be.
pub proof fn law_which_files_are_removed(
    kind: ThemeFile,
    path: Seq<char>,
    is_there: bool,
    target: Seq<char>,
    directory: Seq<char>,
    name: Seq<char>,
)
    ensures
        ({
            let r = theme::removal(kind, path, is_there, target, directory);
            let asked = text::trimmed(path).len() > 0 && is_there;
            &&& !asked ==> r == Ok::<bool, ErrorModel>(false)
            &&& asked && directory.len() > 0 && target == directory + seq!['/'] + name ==> r
                == Ok::<bool, ErrorModel>(true)
            &&& asked && paths::path_below(target, directory) is None ==> r is Err
        }),
{
    if directory.len() > 0 {
        path_laws::law_below_a_directory(directory, name, target);
    }
}

// ---------------------------------------------------------------------
// Entries of a workspace
// ---------------------------------------------------------------------

/// An entry lies in a workspace where its path is that of the workspace, a
/// slash, and something; the workspace itself, with or without slashes
/// behind it, is no entry of it, and a path whose parts do not begin with
/// those of the workspace is none either.
pub proof fn law_entries_of_a_workspace(root: Seq<char>, rest: Seq<char>, path: Seq<char>)
    ensures
        root.len() > 0 ==> (workspace::lies_below(root + seq!['/'] + rest, root)
            <==> paths::path_parts(rest).len() > 0),
        workspace::lies_below(path, root) ==> paths::path_components(root).len()
            < paths::path_components(path).len() && paths::path_components(path).take(
            paths::path_components(root).len() as int,
        ) == paths::path_components(root) && (path.len() > 0 && path[0] == '/') == (root.len() > 0
            && root[0] == '/'),
{
    path_laws::law_below_a_directory(root, rest, path);
    if root.len() > 0 {
        path_laws::law_below_a_directory(root, rest, root + seq!['/'] + rest);
        path_laws::lemma_split_concat(root, '/', rest);
        path_laws::law_parts_of_paths(root, rest, rest);
        let whole = root + seq!['/'] + rest;
        assert(text::split_char(whole, '/')[0] == text::split_char(root, '/')[0]);
    }
}

/// A name is accepted where it is one part of a path: something without
/// slashes that is neither one dot nor two. White space around it is taken
/// off first. A name with a slash in front, or between two parts, is not.
pub proof fn law_names_of_entries(name: Seq<char>, other: Seq<char>)
    requires
        text::trimmed(name) == name,
        name.len() > 0,
        !name.contains('/'),
    ensures
        name != "."@ && name != ".."@ ==> workspace::entry_name(name) == Ok::<
            Seq<char>,
            ErrorModel,
        >(name),
        name == "."@ || name == ".."@ ==> workspace::entry_name(name) is Err,
        text::trimmed(other).len() == 0 ==> workspace::entry_name(other) is Err,
        text::trimmed(other) == seq!['/'] + name ==> workspace::entry_name(other) is Err,
        name != "."@ && other != "."@ && other.len() > 0 && !other.contains('/') && text::trimmed(
            name + seq!['/'] + other,
        ) == name + seq!['/'] + other ==> workspace::entry_name(name + seq!['/'] + other) is Err,
{
    path_laws::law_parts_of_paths(name, other, name);
    path_laws::law_parts_of_paths(name, other, other);
    text_laws::law_split_takes_the_first(name, '/', other);
    text_laws::law_split_takes_the_first(Seq::empty(), '/', name);
    assert(Seq::<char>::empty() + seq!['/'] + name =~= seq!['/'] + name);
    let none = Seq::<char>::empty();
    if text::trimmed(other).len() == 0 {
        assert(text::trimmed(other) =~= none);
    }
    reveal_strlit("..");
    reveal_strlit(".");
    assert("."@.len() != ".."@.len());
}

/// A project is named by its identifier without white space around it; a
/// blank one is refused.
pub proof fn law_names_of_projects(id: Seq<char>)
    ensures
        text::trimmed(id).len() > 0 ==> workspace::project_name(id) == Ok::<Seq<char>, ErrorModel>(
            text::trimmed(id),
        ),
        text::trimmed(id).len() == 0 ==> workspace::project_name(id) is Err
            && workspace::project_name(id)->Err_0.status == error::ErrorStatus::InvalidArg,
{
}

/// Each file adds its size to the total, up to the largest number there is;
/// each directory is looked into later; anything else, and a file whose size
/// cannot be told, adds nothing.
pub proof fn law_sizes_add_up(s: PathSizeModel, e: SizeModel)
    ensures
        ({
            let after = workspace::counted(s, e);
            &&& e.is_dir ==> after.total == s.total && after.pending == s.pending.push(e.path)
            &&& !e.is_dir ==> after.pending == s.pending
            &&& !e.is_dir && e.is_file && e.size is Some && i64::MIN <= s.total + e.size->0
                <= i64::MAX ==> after.total == s.total + e.size->0
            &&& !e.is_dir && e.is_file && e.size is Some && s.total + e.size->0 > i64::MAX
                ==> after.total == i64::MAX
            &&& !e.is_dir && (!e.is_file || e.size is None) ==> after.total == s.total
        }),
{
}

} // verus!
