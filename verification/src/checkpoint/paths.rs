//! Paths in a manifest: relative to the working directory, with `/` between
//! their parts, or marked as absolute.

use vstd::prelude::*;
use vstd::slice::slice_subrange;
use crate::error;
use crate::error::{ErrorModel, StorageError};
use crate::git::discover::is_one_of;
use crate::text;

verus! {

/// What a manifest path begins with where the file lies outside the working
/// directory; the absolute path follows.
pub const ABSOLUTE_PATH_MARKER: &'static str = "\x00abs:";

/// The directories whose content checkpoints never record.
pub open spec fn skipped_names() -> Seq<Seq<char>> {
    seq![
        "node_modules"@,
        ".git"@,
        ".svn"@,
        ".hg"@,
        "dist"@,
        "build"@,
        ".next"@,
        ".nuxt"@,
        "out"@,
        "coverage"@,
        ".cache"@,
        ".turbo"@,
        ".vercel"@,
        "target"@,
        "__pycache__"@,
        ".venv"@,
        "venv"@,
        ".idea"@,
        ".vscode"@,
        ".vs"@,
        ".snow"@,
        ".snowapp"@,
        "release"@,
        ".output"@,
        ".angular"@,
        ".parcel-cache"@,
    ]
}

/// Whether a part of a path names a directory that is never recorded.
fn is_skipped_name(name: &[char]) -> (r: bool)
    ensures
        r == skipped_names().contains(name@),
{
    let list: &[&str] = &[
        "node_modules",
        ".git",
        ".svn",
        ".hg",
        "dist",
        "build",
        ".next",
        ".nuxt",
        "out",
        "coverage",
        ".cache",
        ".turbo",
        ".vercel",
        "target",
        "__pycache__",
        ".venv",
        "venv",
        ".idea",
        ".vscode",
        ".vs",
        ".snow",
        ".snowapp",
        "release",
        ".output",
        ".angular",
        ".parcel-cache",
    ];
    proof {
        assert(Seq::new(list@.len(), |i: int| list@[i]@) =~= skipped_names());
    }
    is_one_of(name, list)
}

/// Whether a relative path leads through a directory that is never recorded.
pub open spec fn skips(path: Seq<char>) -> bool {
    exists|i: int|
        0 <= i < text::split_char(path, '/').len() && skipped_names().contains(
            #[trigger] text::split_char(path, '/')[i],
        )
}

/// Whether a relative path leads through a directory that is never recorded.
pub fn should_skip_relative(path: &str) -> (r: bool)
    ensures
        r == skips(path@),
{
    let chars = text::chars_of(path);
    let parts = text::split_at_char(chars.as_slice(), '/');
    let ghost all = text::split_char(path@, '/');
    let mut i: usize = 0;
    while i < parts.len()
        invariant
            i <= parts@.len(),
            all == text::split_char(path@, '/'),
            text::texts(parts@) == all,
            forall|j: int| 0 <= j < i ==> !skipped_names().contains(#[trigger] all[j]),
        decreases parts@.len() - i,
    {
        proof {
            assert(parts@[i as int]@ == text::texts(parts@)[i as int]);
            assert(all[i as int] == parts@[i as int]@);
        }
        if is_skipped_name(parts[i].as_slice()) {
            return true;
        }
        i += 1;
    }
    false
}

/// Whether a manifest path is left alone. Absolute paths never are: somebody
/// chose to edit those files.
pub open spec fn skips_entry(path: Seq<char>) -> bool {
    !text::begins(path, ABSOLUTE_PATH_MARKER@) && skips(path)
}

/// Whether a manifest path is left alone.
pub fn should_skip_manifest_path(manifest_path: &str) -> (r: bool)
    ensures
        r == skips_entry(manifest_path@),
{
    let chars = text::chars_of(manifest_path);
    if text::starts_with(chars.as_slice(), ABSOLUTE_PATH_MARKER) {
        return false;
    }
    should_skip_relative(manifest_path)
}

/// A path without the prefix that Windows puts before long paths.
pub open spec fn plain_path(path: Seq<char>) -> Seq<char> {
    if text::begins(path, "\\\\?\\"@) {
        let rest = path.skip("\\\\?\\"@.len() as int);
        if text::begins(rest, "UNC\\"@) {
            "\\\\"@ + rest.skip("UNC\\"@.len() as int)
        } else {
            rest
        }
    } else {
        path
    }
}

/// A path without the prefix that Windows puts before long paths.
pub fn strip_windows_extended_prefix(path: &str) -> (out: String)
    ensures
        out@ == plain_path(path@),
{
    let chars = text::chars_of(path);
    match strip_prefix(chars.as_slice(), "\\\\?\\") {
        Some(rest) => match strip_prefix(rest, "UNC\\") {
            Some(unc) => {
                let mut out = "\\\\".to_string();
                let tail = text::string_of(unc);
                out.append(tail.as_str());
                out
            },
            None => text::string_of(rest),
        },
        None => path.to_string(),
    }
}

/// What follows a prefix, where the text begins with it.
pub open spec fn after_prefix(s: Seq<char>, prefix: Seq<char>) -> Option<Seq<char>> {
    if text::begins(s, prefix) {
        Some(s.skip(prefix.len() as int))
    } else {
        None
    }
}

/// What follows a prefix, where the text begins with it.
pub(crate) fn strip_prefix<'a>(s: &'a [char], prefix: &str) -> (r: Option<&'a [char]>)
    ensures
        match r {
            Some(rest) => after_prefix(s@, prefix@) == Some(rest@),
            None => after_prefix(s@, prefix@) is None,
        },
{
    if text::starts_with(s, prefix) {
        let head = text::chars_of(prefix);
        let total: usize = s.len();
        let rest = slice_subrange(s, head.len(), total);
        proof {
            assert(rest@ =~= s@.skip(prefix@.len() as int));
        }
        Some(rest)
    } else {
        None
    }
}

/// A text without the slashes at its end; a single slash stays.
pub open spec fn without_end_slashes(s: Seq<char>) -> Seq<char>
    decreases s.len(),
{
    if s.len() > 1 && s.last() == '/' {
        without_end_slashes(s.drop_last())
    } else {
        s
    }
}

/// The form in which paths are compared. Where the file system does not
/// tell upper from lower case, neither does the key.
pub open spec fn key_of(path: Seq<char>, fold_case: bool) -> Seq<char> {
    let key = without_end_slashes(text::replaced(plain_path(path), '\\', "/"@));
    if fold_case {
        text::ascii_lower(key)
    } else {
        key
    }
}

/// The form in which paths are compared.
pub fn path_key(path: &str, fold_case: bool) -> (out: String)
    ensures
        out@ == key_of(path@, fold_case),
{
    let plain = strip_windows_extended_prefix(path);
    let chars = text::chars_of(plain.as_str());
    let mut key = text::replace_char(chars.as_slice(), '\\', "/");
    let ghost start = key@;
    while key.len() > 1 && key[key.len() - 1] == '/'
        invariant
            without_end_slashes(key@) == without_end_slashes(start),
        decreases key@.len(),
    {
        let ghost before = key@;
        let _ = key.pop();
        proof {
            assert(key@ =~= before.drop_last());
        }
    }
    if fold_case {
        let folded = text::to_ascii_lower(key.as_slice());
        text::string_of(folded.as_slice())
    } else {
        text::string_of(key.as_slice())
    }
}

/// Whether a path is a directory, or lies below it.
pub open spec fn lies_within(path: Seq<char>, root: Seq<char>, fold_case: bool) -> bool {
    key_of(path, fold_case) == key_of(root, fold_case) || text::begins(
        key_of(path, fold_case),
        key_of(root, fold_case) + "/"@,
    )
}

/// Whether a path is a directory, or lies below it.
pub fn is_path_within_root(path: &str, root: &str, fold_case: bool) -> (r: bool)
    ensures
        r == lies_within(path@, root@, fold_case),
{
    let candidate = path_key(path, fold_case);
    let mut base = path_key(root, fold_case);
    let key = text::chars_of(candidate.as_str());
    if text::equals(key.as_slice(), base.as_str()) {
        return true;
    }
    base.append("/");
    text::starts_with(key.as_slice(), base.as_str())
}

/// The manifest path of a file whose path has been resolved: empty for the
/// working directory itself, relative below it, and marked outside it.
pub open spec fn entry_path(resolved: Seq<char>, root: Seq<char>, fold_case: bool) -> Seq<char> {
    if !lies_within(resolved, root, fold_case) {
        ABSOLUTE_PATH_MARKER@ + text::replaced(plain_path(resolved), '\\', "/"@)
    } else if key_of(resolved, fold_case) == key_of(root, fold_case) {
        Seq::empty()
    } else {
        key_of(resolved, fold_case).skip(key_of(root, fold_case).len() as int + 1)
    }
}

/// The manifest path of a file whose path has been resolved.
pub fn resolve_checkpoint_path(root: &str, resolved: &str, fold_case: bool) -> (out: String)
    ensures
        out@ == entry_path(resolved@, root@, fold_case),
{
    if !is_path_within_root(resolved, root, fold_case) {
        let plain = strip_windows_extended_prefix(resolved);
        let chars = text::chars_of(plain.as_str());
        let slashed = text::replace_char(chars.as_slice(), '\\', "/");
        let mut out = ABSOLUTE_PATH_MARKER.to_string();
        let tail = text::string_of(slashed.as_slice());
        out.append(tail.as_str());
        return out;
    }
    let candidate = path_key(resolved, fold_case);
    let mut base = path_key(root, fold_case);
    let key = text::chars_of(candidate.as_str());
    if text::equals(key.as_slice(), base.as_str()) {
        return text::string_of(&[]);
    }
    base.append("/");
    proof {
        reveal_strlit("/");
    }
    match strip_prefix(key.as_slice(), base.as_str()) {
        Some(rest) => text::string_of(rest),
        None => text::string_of(&[]),
    }
}

/// Where the file of a manifest entry lies: at an absolute path, or at a
/// path below the working directory.
pub enum ManifestPlace {
    Outside(String),
    Inside(String),
}

/// The mathematical form of a place.
pub enum PlaceModel {
    Outside(Seq<char>),
    Inside(Seq<char>),
}

impl DeepView for ManifestPlace {
    type V = PlaceModel;

    open spec fn deep_view(&self) -> PlaceModel {
        match self {
            ManifestPlace::Outside(p) => PlaceModel::Outside(p@),
            ManifestPlace::Inside(p) => PlaceModel::Inside(p@),
        }
    }
}

/// Where the file of a manifest entry lies.
pub open spec fn place_of(manifest_path: Seq<char>) -> PlaceModel {
    match after_prefix(manifest_path, ABSOLUTE_PATH_MARKER@) {
        Some(path) => PlaceModel::Outside(path),
        None => PlaceModel::Inside(manifest_path),
    }
}

/// Where the file of a manifest entry lies.
pub fn resolve_manifest_path(manifest_path: &str) -> (r: ManifestPlace)
    ensures
        r.deep_view() == place_of(manifest_path@),
{
    let chars = text::chars_of(manifest_path);
    match strip_prefix(chars.as_slice(), ABSOLUTE_PATH_MARKER) {
        Some(path) => ManifestPlace::Outside(text::string_of(path)),
        None => ManifestPlace::Inside(manifest_path.to_string()),
    }
}

/// A file below the working directory is found again at its relative path,
/// and any other file at its own path.
pub proof fn law_entry_path_resolves(resolved: Seq<char>, root: Seq<char>, fold_case: bool)
    requires
        !text::begins(entry_path(resolved, root, fold_case), ABSOLUTE_PATH_MARKER@)
            || !lies_within(resolved, root, fold_case),
    ensures
        match place_of(entry_path(resolved, root, fold_case)) {
            PlaceModel::Outside(path) => !lies_within(resolved, root, fold_case) && path
                == text::replaced(plain_path(resolved), '\\', "/"@),
            PlaceModel::Inside(path) => lies_within(resolved, root, fold_case) && (if path.len()
                == 0 {
                key_of(resolved, fold_case) == key_of(root, fold_case) || key_of(
                    resolved,
                    fold_case,
                ) == key_of(root, fold_case) + "/"@
            } else {
                key_of(resolved, fold_case) == key_of(root, fold_case) + "/"@ + path
            }),
        },
{
    let marker = ABSOLUTE_PATH_MARKER@;
    let e = entry_path(resolved, root, fold_case);
    let key = key_of(resolved, fold_case);
    let base = key_of(root, fold_case);
    reveal_strlit("/");
    if !lies_within(resolved, root, fold_case) {
        let p = text::replaced(plain_path(resolved), '\\', "/"@);
        assert(e == marker + p);
        assert(e.take(marker.len() as int) =~= marker);
        assert(e.subrange(0, marker.len() as int) =~= marker);
        assert(e.skip(marker.len() as int) =~= p);
    } else if key != base {
        assert(key.subrange(0, base.len() as int + 1) =~= base + "/"@);
        assert(key =~= base + "/"@ + key.skip(base.len() as int + 1));
        if e.len() == 0 {
            assert(key =~= base + "/"@);
        }
    }
}

/// The parts of a path: what stands between slashes, without empty parts
/// and the part that names the directory itself.
pub open spec fn path_parts(path: Seq<char>) -> Seq<Seq<char>> {
    text::split_char(path, '/').filter(|p: Seq<char>| p.len() > 0 && p != "."@)
}

/// The parts of a path.
pub(crate) fn parts_of(path: &str) -> (out: Vec<Vec<char>>)
    ensures
        text::texts(out@) == path_parts(path@),
{
    let chars = text::chars_of(path);
    let pieces = text::split_at_char(chars.as_slice(), '/');
    let ghost all = text::split_char(path@, '/');
    let ghost keep = |p: Seq<char>| p.len() > 0 && p != "."@;
    let mut out: Vec<Vec<char>> = Vec::new();
    let mut i: usize = 0;
    proof {
        assert(text::texts(out@) =~= all.take(0).filter(keep)) by {
            reveal_with_fuel(Seq::filter, 2);
        }
    }
    while i < pieces.len()
        invariant
            i <= pieces@.len(),
            text::texts(pieces@) == all,
            keep == (|p: Seq<char>| p.len() > 0 && p != "."@),
            text::texts(out@) == all.take(i as int).filter(keep),
        decreases pieces@.len() - i,
    {
        let ghost before = text::texts(out@);
        proof {
            assert(all[i as int] == pieces@[i as int]@);
            assert(all.take(i + 1).drop_last() =~= all.take(i as int));
            assert(all.take(i + 1).last() == all[i as int]);
            reveal_with_fuel(Seq::filter, 2);
        }
        if pieces[i].len() > 0 && !text::equals(pieces[i].as_slice(), ".") {
            out.push(text::copy_of(pieces[i].as_slice()));
            proof {
                assert(text::texts(out@) =~= before.push(all[i as int]));
            }
        }
        i += 1;
    }
    proof {
        assert(all.take(i as int) =~= all);
    }
    out
}

/// The parts of a path as paths are compared: a path that starts at the
/// directory itself keeps the part that names it.
pub open spec fn path_components(path: Seq<char>) -> Seq<Seq<char>> {
    if text::split_char(path, '/')[0] == "."@ {
        seq!["."@] + path_parts(path)
    } else {
        path_parts(path)
    }
}

/// The parts of a path as paths are compared.
pub(crate) fn components_of(path: &str) -> (out: Vec<Vec<char>>)
    ensures
        text::texts(out@) == path_components(path@),
{
    let chars = text::chars_of(path);
    let pieces = text::split_at_char(chars.as_slice(), '/');
    let mut parts = parts_of(path);
    proof {
        assert(text::texts(pieces@)[0] == pieces@[0]@);
    }
    if text::equals(pieces[0].as_slice(), ".") {
        let mut out: Vec<Vec<char>> = Vec::new();
        let ghost rest = parts@;
        out.push(text::chars_of("."));
        out.append(&mut parts);
        proof {
            assert(out@ =~= seq![out@[0]] + rest);
            assert(text::texts(out@) =~= seq!["."@] + text::texts(rest));
        }
        out
    } else {
        parts
    }
}

/// Follows the parts of a path; a part that names the parent takes back the
/// part before it.
pub open spec fn followed(parts: Seq<Seq<char>>) -> Seq<Seq<char>>
    decreases parts.len(),
{
    if parts.len() == 0 {
        Seq::empty()
    } else {
        let so_far = followed(parts.drop_last());
        if parts.last() == ".."@ {
            if so_far.len() > 0 {
                so_far.drop_last()
            } else {
                so_far
            }
        } else {
            so_far.push(parts.last())
        }
    }
}

/// A path with no part that names its own directory or its parent.
pub open spec fn normal_path(path: Seq<char>) -> Seq<char> {
    let tail = text::joined(followed(path_parts(path)), "/"@);
    if path.len() > 0 && path[0] == '/' {
        "/"@ + tail
    } else {
        tail
    }
}

/// A path with no part that names its own directory or its parent.
pub fn normalize_path(path: &str) -> (out: String)
    ensures
        out@ == normal_path(path@),
{
    let parts = parts_of(path);
    let ghost all = path_parts(path@);
    let mut kept: Vec<Vec<char>> = Vec::new();
    let mut i: usize = 0;
    proof {
        assert(text::texts(kept@) =~= followed(all.take(0)));
    }
    while i < parts.len()
        invariant
            i <= parts@.len(),
            text::texts(parts@) == all,
            text::texts(kept@) == followed(all.take(i as int)),
        decreases parts@.len() - i,
    {
        let ghost before = text::texts(kept@);
        proof {
            assert(all[i as int] == parts@[i as int]@);
            assert(all.take(i + 1).drop_last() =~= all.take(i as int));
        }
        if text::equals(parts[i].as_slice(), "..") {
            if kept.len() > 0 {
                let ghost old_kept = kept@;
                let _ = kept.pop();
                proof {
                    assert(kept@ =~= old_kept.drop_last());
                    assert(text::texts(kept@) =~= before.drop_last());
                }
            }
        } else {
            kept.push(text::copy_of(parts[i].as_slice()));
            proof {
                assert(text::texts(kept@) =~= before.push(all[i as int]));
            }
        }
        i += 1;
    }
    proof {
        assert(all.take(i as int) =~= all);
    }
    let tail_chars = text::join(&kept, "/");
    let tail = text::string_of(tail_chars.as_slice());
    let chars = text::chars_of(path);
    if chars.len() > 0 && chars[0] == '/' {
        let mut out = "/".to_string();
        out.append(tail.as_str());
        out
    } else {
        tail
    }
}

/// What looking up a path came to: nothing is there, something is and has
/// the given resolved path, or it failed.
pub enum PathLook {
    Nothing,
    At(String),
    Failed(String),
}

/// The mathematical form of a look-up.
pub enum LookModel {
    Nothing,
    At(Seq<char>),
    Failed(Seq<char>),
}

impl DeepView for PathLook {
    type V = LookModel;

    open spec fn deep_view(&self) -> LookModel {
        match self {
            PathLook::Nothing => LookModel::Nothing,
            PathLook::At(path) => LookModel::At(path@),
            PathLook::Failed(why) => LookModel::Failed(why@),
        }
    }
}

/// Where a path leads: the directory above it must be looked up first, it
/// is resolved, it is a name in a resolved directory, or it failed.
pub enum PathStep {
    AskParent { parent: String },
    Resolved { path: String },
    Below { directory: String, name: String },
    Failed(StorageError),
}

/// The mathematical form of a step.
pub enum StepModel {
    AskParent { parent: Seq<char> },
    Resolved { path: Seq<char> },
    Below { directory: Seq<char>, name: Seq<char> },
    Failed(ErrorModel),
}

impl DeepView for PathStep {
    type V = StepModel;

    open spec fn deep_view(&self) -> StepModel {
        match self {
            PathStep::AskParent { parent } => StepModel::AskParent { parent: parent@ },
            PathStep::Resolved { path } => StepModel::Resolved { path: path@ },
            PathStep::Below { directory, name } => StepModel::Below {
                directory: directory@,
                name: name@,
            },
            PathStep::Failed(e) => StepModel::Failed(e.deep_view()),
        }
    }
}

/// The position of the last slash.
pub open spec fn last_slash(path: Seq<char>) -> Option<int>
    decreases path.len(),
{
    if path.len() == 0 {
        None
    } else if path.last() == '/' {
        Some(path.len() - 1)
    } else {
        last_slash(path.drop_last())
    }
}

/// The directory and the name that a path with no needless parts is made
/// of. A path with a single part has no directory before it.
pub open spec fn split_name(path: Seq<char>) -> Option<(Seq<char>, Seq<char>)> {
    match last_slash(path) {
        None => None,
        Some(i) => if i + 1 == path.len() {
            None
        } else if i == 0 {
            Some((path.take(1), path.skip(1)))
        } else {
            Some((path.take(i), path.skip(i + 1)))
        },
    }
}

/// The error for a path that cannot be resolved.
pub open spec fn unresolved(what: Seq<char>, path: Seq<char>, why: Seq<char>) -> ErrorModel {
    error::failure("Failed to resolve checkpoint path"@ + what + " '"@ + path + "': "@ + why)
}

/// Where a path leads whose file need not be there. A file that is there is
/// resolved itself, else the directory that it would lie in is; where that
/// is missing too, the path stays without its needless parts.
pub open spec fn path_step(
    path: Seq<char>,
    itself: LookModel,
    parent: Option<LookModel>,
) -> StepModel {
    match itself {
        LookModel::At(found) => StepModel::Resolved { path: found },
        LookModel::Failed(why) => StepModel::Failed(unresolved(Seq::empty(), path, why)),
        LookModel::Nothing => {
            let normal = normal_path(path);
            match split_name(normal) {
                None => StepModel::Resolved { path: plain_path(normal) },
                Some((above, name)) => match parent {
                    None => StepModel::AskParent { parent: above },
                    Some(LookModel::At(directory)) => StepModel::Below { directory, name },
                    Some(LookModel::Failed(why)) => StepModel::Failed(
                        unresolved(" parent"@, above, why),
                    ),
                    Some(LookModel::Nothing) => StepModel::Resolved { path: plain_path(normal) },
                },
            }
        },
    }
}

/// The directory and the name of a path.
fn split_at_name(path: &str) -> (r: Option<(String, String)>)
    ensures
        match r {
            Some((a, b)) => split_name(path@) == Some((a@, b@)),
            None => split_name(path@) is None,
        },
{
    let chars = text::chars_of(path);
    let total: usize = chars.len();
    let mut i: usize = total;
    proof {
        assert(path@.take(i as int) =~= path@);
    }
    while i > 0 && chars[i - 1] != '/'
        invariant
            i <= total == chars@.len(),
            chars@ == path@,
            last_slash(path@.take(i as int)) == last_slash(path@),
        decreases i,
    {
        proof {
            assert(path@.take(i as int).drop_last() =~= path@.take(i - 1));
        }
        i -= 1;
    }
    if i == 0 {
        return None;
    }
    proof {
        assert(last_slash(path@) == Some(i - 1));
    }
    if i == total {
        return None;
    }
    let end: usize = if i == 1 {
        1
    } else {
        i - 1
    };
    let above = slice_subrange(chars.as_slice(), 0, end);
    let name = slice_subrange(chars.as_slice(), i, total);
    proof {
        assert(above@ =~= path@.take(end as int));
        assert(name@ =~= path@.skip(i as int));
    }
    Some((text::string_of(above), text::string_of(name)))
}

fn cannot_resolve(what: &str, path: &str, why: &str) -> (e: StorageError)
    ensures
        e.deep_view() == unresolved(what@, path@, why@),
{
    let mut reason = "Failed to resolve checkpoint path".to_string();
    reason.append(what);
    reason.append(" '");
    reason.append(path);
    reason.append("': ");
    reason.append(why);
    StorageError::from_reason(reason.as_str())
}

/// Where a path leads whose file need not be there, given what looking up
/// the path and, where that was asked for, its directory came to.
pub fn resolve_path_for_checkpoint(path: &str, itself: &PathLook, parent: &Option<PathLook>) -> (r:
    PathStep)
    ensures
        r.deep_view() == path_step(path@, itself.deep_view(), parent.deep_view()),
{
    match itself {
        PathLook::At(found) => PathStep::Resolved { path: found.clone() },
        PathLook::Failed(why) => {
            let e = cannot_resolve("", path, why.as_str());
            proof {
                reveal_strlit("");
                assert(""@ =~= Seq::<char>::empty());
            }
            PathStep::Failed(e)
        },
        PathLook::Nothing => {
            let normal = normalize_path(path);
            match split_at_name(normal.as_str()) {
                None => PathStep::Resolved { path: strip_windows_extended_prefix(normal.as_str()) },
                Some((above, name)) => match parent {
                    None => PathStep::AskParent { parent: above },
                    Some(PathLook::At(directory)) => PathStep::Below {
                        directory: directory.clone(),
                        name,
                    },
                    Some(PathLook::Failed(why)) => PathStep::Failed(
                        cannot_resolve(" parent", above.as_str(), why.as_str()),
                    ),
                    Some(PathLook::Nothing) => PathStep::Resolved {
                        path: strip_windows_extended_prefix(normal.as_str()),
                    },
                },
            }
        },
    }
}

/// The path from a directory to another below it.
pub open spec fn path_below(path: Seq<char>, base: Seq<char>) -> Option<Seq<char>> {
    let parts = path_components(path);
    let head = path_components(base);
    let same_start = (path.len() > 0 && path[0] == '/') == (base.len() > 0 && base[0] == '/');
    if same_start && head.len() <= parts.len() && parts.take(head.len() as int) == head {
        Some(text::joined(parts.skip(head.len() as int), "/"@))
    } else {
        None
    }
}

/// The path from a directory to another below it.
pub fn relative_to(path: &str, base: &str) -> (r: Option<String>)
    ensures
        r.deep_view() == path_below(path@, base@),
{
    let parts = components_of(path);
    let head = components_of(base);
    let path_chars = text::chars_of(path);
    let base_chars = text::chars_of(base);
    let starts = path_chars.len() > 0 && path_chars[0] == '/';
    let base_starts = base_chars.len() > 0 && base_chars[0] == '/';
    let ghost all = path_components(path@);
    let ghost want = path_components(base@);
    if starts != base_starts || head.len() > parts.len() {
        return None;
    }
    let mut i: usize = 0;
    while i < head.len()
        invariant
            i <= head@.len() <= parts@.len(),
            all == path_components(path@),
            want == path_components(base@),
            text::texts(parts@) == all,
            text::texts(head@) == want,
            forall|j: int| 0 <= j < i ==> all[j] == want[j],
        decreases head@.len() - i,
    {
        proof {
            assert(all[i as int] == parts@[i as int]@);
            assert(want[i as int] == head@[i as int]@);
        }
        if !text::same(parts[i].as_slice(), head[i].as_slice()) {
            proof {
                assert(all.take(want.len() as int)[i as int] != want[i as int]);
            }
            return None;
        }
        i += 1;
    }
    proof {
        assert(all.take(want.len() as int) =~= want);
    }
    let mut rest: Vec<Vec<char>> = Vec::new();
    while i < parts.len()
        invariant
            head@.len() <= i <= parts@.len(),
            text::texts(parts@) == all,
            text::texts(rest@) == all.subrange(head@.len() as int, i as int),
        decreases parts@.len() - i,
    {
        let ghost before = text::texts(rest@);
        rest.push(text::copy_of(parts[i].as_slice()));
        proof {
            assert(all[i as int] == parts@[i as int]@);
            assert(text::texts(rest@) =~= before.push(all[i as int]));
            assert(all.subrange(head@.len() as int, i + 1) =~= before.push(all[i as int]));
        }
        i += 1;
    }
    proof {
        assert(text::texts(rest@) =~= all.skip(want.len() as int));
    }
    let out = text::join(&rest, "/");
    Some(text::string_of(out.as_slice()))
}

/// The identifier of a checkpoint that was made at the given time.
pub open spec fn id_at(secs: u64, nanos: u32, count: u64) -> Seq<char> {
    "cp-"@ + text::decimal(secs as nat) + "-"@ + text::decimal(nanos as nat) + "-"@
        + text::decimal(count as nat)
}

/// The identifier of a checkpoint that was made at the given time; the
/// count tells apart those made at once.
pub fn generate_checkpoint_id(secs: u64, nanos: u32, count: u64) -> (out: String)
    ensures
        out@ == id_at(secs, nanos, count),
{
    let mut out = text::chars_of("cp-");
    let a = text::write_u64(secs);
    text::append(&mut out, a.as_slice());
    text::append_str(&mut out, "-");
    let b = text::write_u64(nanos as u64);
    text::append(&mut out, b.as_slice());
    text::append_str(&mut out, "-");
    let c = text::write_u64(count);
    text::append(&mut out, c.as_slice());
    text::string_of(out.as_slice())
}

} // verus!
