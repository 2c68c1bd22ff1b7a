//! What is kept and recorded of files, and what is shown of their changes.

use vstd::prelude::*;
use crate::checkpoint::after;
use crate::checkpoint::after::{NodeStat, ObservedModel, StateReplyModel, VerdictModel};
use crate::checkpoint::baseline;
use crate::checkpoint::baseline::RunModel;
use crate::checkpoint::before;
use crate::checkpoint::before::{
    CaptureFactsModel, CopyModel, EndModel, FingerprintModel, ListedModel, ListingReplyModel,
    ListingSource, PendingModel, ScanModel, SettledModel, WorktreeModel,
};
use crate::checkpoint::content;
use crate::checkpoint::content::ReadModel;
use crate::checkpoint::laws::{is_marked, law_which_paths_are_recorded, leads_through_heavy};
use crate::checkpoint::manifest;
use crate::checkpoint::manifest::{BaselineModel, EntryModel, ManifestModel, StateModel};
use crate::checkpoint::path_laws;
use crate::checkpoint::paths;
use crate::checkpoint::recording;
use crate::checkpoint::recording::FileStepModel;
use crate::checkpoint::sight;
use crate::checkpoint::sight::{ChangeType, StoredModel};
use crate::error::ErrorModel;
use crate::text;
use crate::text_laws;

verus! {

// ---------------------------------------------------------------------
// Content
// ---------------------------------------------------------------------

/// Ends of lines are made alike: a carriage return before a line feed goes,
/// wherever it stands; a text without such a pair stays.
pub proof fn law_ends_of_lines(a: Seq<char>, b: Seq<char>)
    ensures
        content::plain_lines(a + seq!['\r', '\n'] + b) == content::plain_lines(a) + seq!['\n']
            + content::plain_lines(b),
        !text::occurs(a, seq!['\r', '\n']) ==> content::plain_lines(a) == a,
    decreases a.len(),
{
    let pair = seq!['\r', '\n'];
    let s = a + pair + b;
    if a.len() == 0 {
        assert(s.skip(2) =~= b);
        assert(s[0] == '\r' && s[1] == '\n');
        assert(content::plain_lines(a) =~= a);
        assert(content::plain_lines(s) =~= content::plain_lines(a) + seq!['\n']
            + content::plain_lines(b));
    } else if a.len() >= 2 && a[0] == '\r' && a[1] == '\n' {
        let rest = a.skip(2);
        law_ends_of_lines(rest, b);
        assert(s[0] == a[0] && s[1] == a[1]);
        assert(s.skip(2) =~= rest + pair + b);
        assert(content::plain_lines(s) =~= content::plain_lines(a) + seq!['\n']
            + content::plain_lines(b));
        assert(a.subrange(0, 2) =~= pair);
        assert(text::stands_at(a, pair, 0));
    } else {
        let rest = a.skip(1);
        law_ends_of_lines(rest, b);
        assert(s[0] == a[0]);
        assert(s.skip(1) =~= rest + pair + b);
        assert(!(s.len() >= 2 && s[0] == '\r' && s[1] == '\n')) by {
            if a.len() >= 2 {
                assert(s[1] == a[1]);
            } else {
                assert(s[1] == '\r');
            }
        }
        assert(content::plain_lines(s) =~= content::plain_lines(a) + seq!['\n']
            + content::plain_lines(b));
        if !text::occurs(a, pair) {
            if text::occurs(rest, pair) {
                let i = choose|i: int| text::stands_at(rest, pair, i);
                assert(a.subrange(i + 1, i + 3) =~= rest.subrange(i, i + 2));
                assert(text::stands_at(a, pair, i + 1));
            }
            assert(content::plain_lines(a) =~= a);
        }
    }
}

/// A change is shown as a difference of texts where both sides are texts
/// without zeros, and as binary otherwise. A side without a file counts as
/// an empty one and is named as nothing; the other is named by its path
/// behind a letter. Ends of lines make no difference.
pub proof fn law_differences_of_content(
    path: Seq<char>,
    old: Option<Seq<u8>>,
    new: Option<Seq<u8>>,
)
    ensures
        ({
            let shown = content::file_diff(path, old, new);
            let bytes = |c: Option<Seq<u8>>|
                if c is Some {
                    c->0
                } else {
                    Seq::empty()
                };
            let plain = |c: Option<Seq<u8>>|
                vstd::utf8::valid_utf8(bytes(c)) && !bytes(c).contains(0u8);
            let lines = |c: Option<Seq<u8>>|
                content::plain_lines(vstd::utf8::decode_utf8(bytes(c)));
            &&& !plain(old) || !plain(new) ==> shown.1 && shown.0.len() == 0
            &&& plain(old) && plain(new) ==> !shown.1
            &&& plain(old) && plain(new) && old is Some && new is Some ==> shown.0
                == content::diff_text(lines(old), lines(new), "a/"@ + path, "b/"@ + path)
            &&& plain(old) && plain(new) && old is None && new is Some ==> shown.0
                == content::diff_text(lines(old), lines(new), "/dev/null"@, "b/"@ + path)
            &&& plain(old) && plain(new) && old is Some && new is None ==> shown.0
                == content::diff_text(lines(old), lines(new), "a/"@ + path, "/dev/null"@)
        }),
{
}

/// What is there at a path is told by its content; a path that is no regular
/// file, or that cannot be read, is a failure, and never taken for a missing
/// file.
pub proof fn law_states_of_files(path: Seq<char>, bytes: Seq<u8>, why: Seq<char>)
    ensures
        content::state_of(path, ReadModel::Missing) == Ok::<StateModel, ErrorModel>(
            StateModel::Missing,
        ),
        content::state_of(path, ReadModel::Content(bytes)) == Ok::<StateModel, ErrorModel>(
            StateModel::Object { object_id: content::content_id(bytes) },
        ),
        content::state_of(path, ReadModel::NotRegular) is Err,
        content::state_of(path, ReadModel::Failed(why)) is Err,
        content::content_of(path, ReadModel::Missing) == Ok::<Option<Seq<u8>>, ErrorModel>(None),
        content::content_of(path, ReadModel::Content(bytes)) == Ok::<
            Option<Seq<u8>>,
            ErrorModel,
        >(Some(bytes)),
        content::content_of(path, ReadModel::NotRegular) is Err,
        content::content_of(path, ReadModel::Failed(why)) is Err,
{
}

/// The content of a state is what was stored of it; a state of a commit
/// needs the commit to be known, and a failure to fetch is told.
pub proof fn law_content_of_states(
    id: Seq<char>,
    has_git: bool,
    stored: StoredModel,
    bytes: Seq<u8>,
    e: ErrorModel,
)
    ensures
        sight::original_content(StateModel::Missing, has_git, stored) == Ok::<
            Option<Seq<u8>>,
            ErrorModel,
        >(None),
        sight::original_content(
            StateModel::Object { object_id: id },
            has_git,
            StoredModel::Content(bytes),
        ) == Ok::<Option<Seq<u8>>, ErrorModel>(Some(bytes)),
        sight::original_content(StateModel::Git, true, StoredModel::Content(bytes)) == Ok::<
            Option<Seq<u8>>,
            ErrorModel,
        >(Some(bytes)),
        sight::original_content(StateModel::Git, true, StoredModel::Absent) == Ok::<
            Option<Seq<u8>>,
            ErrorModel,
        >(None),
        sight::original_content(StateModel::Git, false, stored) is Err,
        sight::original_content(
            StateModel::Object { object_id: id },
            has_git,
            StoredModel::Failed(e),
        ) == Err::<Option<Seq<u8>>, ErrorModel>(e),
        sight::original_content(StateModel::Git, true, StoredModel::Failed(e)) == Err::<
            Option<Seq<u8>>,
            ErrorModel,
        >(e),
{
}

/// Against a commit, a file of this machine is added where the commit has
/// none, deleted where it is gone, modified where it holds something else,
/// and the same otherwise.
pub proof fn law_changes_since_a_commit(read: ReadModel, bytes: Seq<u8>, e: ErrorModel)
    ensures
        ({
            let change = |stored: StoredModel|
                sight::local_change(read, StateModel::Git, true, stored);
            &&& change(StoredModel::Failed(e)) == Err::<Option<ChangeType>, ErrorModel>(e)
            &&& read is Missing ==> change(StoredModel::Absent) == Ok::<
                Option<ChangeType>,
                ErrorModel,
            >(None)
            &&& !(read is Missing) ==> change(StoredModel::Absent) == Ok::<
                Option<ChangeType>,
                ErrorModel,
            >(Some(ChangeType::Added))
            &&& read is Missing ==> change(StoredModel::Content(bytes)) == Ok::<
                Option<ChangeType>,
                ErrorModel,
            >(Some(ChangeType::Deleted))
            &&& read == ReadModel::Content(bytes) ==> change(StoredModel::Content(bytes)) == Ok::<
                Option<ChangeType>,
                ErrorModel,
            >(None)
            &&& !(read is Missing) && read != ReadModel::Content(bytes) ==> change(
                StoredModel::Content(bytes),
            ) == Ok::<Option<ChangeType>, ErrorModel>(Some(ChangeType::Modified))
            &&& sight::local_change(read, StateModel::Git, false, StoredModel::Absent) is Err
        }),
{
}

/// The kinds of changes are told by these words.
pub proof fn law_words_for_changes()
    ensures
        sight::change_name(ChangeType::Added) == "added"@,
        sight::change_name(ChangeType::Deleted) == "deleted"@,
        sight::change_name(ChangeType::Modified) == "modified"@,
{
}

// ---------------------------------------------------------------------
// Recording
// ---------------------------------------------------------------------

proof fn lemma_no_entry(entries: Seq<EntryModel>, path: Seq<char>)
    ensures
        manifest::entry_index(entries, path) is None <==> forall|i: int|
            0 <= i < entries.len() ==> (#[trigger] entries[i]).path != path,
{
    manifest::lemma_entry_index(entries, path);
}

/// A file gets an entry the first time that it is recorded, without knowing
/// yet what becomes of it, unless it lies in a directory of tools; a marked
/// path always gets one. What was recorded first stays.
pub proof fn law_first_recording(m: ManifestModel, path: Seq<char>, original: StateModel)
    ensures
        ({
            let after = manifest::recorded(m, path, original);
            let has_none = forall|i: int|
                0 <= i < m.entries.len() ==> (#[trigger] m.entries[i]).path != path;
            let wanted = path.len() > 0 && (is_marked(path) || !leads_through_heavy(path))
                && has_none;
            &&& after.version == m.version && after.work_dir == m.work_dir && after.git == m.git
            &&& wanted ==> after.entries == m.entries.push(
                EntryModel { path, original, expected: None },
            )
            &&& !wanted ==> after.entries == m.entries
        }),
{
    law_which_paths_are_recorded(path);
    lemma_no_entry(m.entries, path);
}

/// What becomes of a file is recorded in the entry that it has, and in no
/// other; without an entry nothing is.
pub proof fn law_second_recording(m: ManifestModel, path: Seq<char>, state: StateModel, i: int)
    requires
        0 <= i < m.entries.len(),
        manifest::paths_differ(m.entries),
    ensures
        ({
            let after = manifest::recorded_after(m, path, state);
            let e = m.entries[i];
            let wanted = path.len() > 0 && (is_marked(path) || !leads_through_heavy(path));
            &&& after.version == m.version && after.work_dir == m.work_dir && after.git == m.git
            &&& after.entries.len() == m.entries.len()
            &&& e.path != path || !wanted ==> after.entries[i] == e
            &&& e.path == path && wanted ==> after.entries[i] == (EntryModel {
                expected: Some(state),
                ..e
            })
        }),
{
    law_which_paths_are_recorded(path);
    manifest::lemma_entry_index(m.entries, path);
    if m.entries[i].path == path {
        let k = manifest::entry_index(m.entries, path)->0;
        if k < i {
            assert(m.entries[k].path != m.entries[i].path);
        }
        if i < k {
            assert(m.entries[i].path != m.entries[k].path);
        }
    }
}

/// What a command changed gets an entry with both states where it has none,
/// and else the new state in the entry that it has, unless the path leads
/// through a directory of tools.
pub proof fn law_recording_both_states(
    entries: Seq<EntryModel>,
    path: Seq<char>,
    original: StateModel,
    state: StateModel,
    k: int,
)
    ensures
        ({
            let after = manifest::captured(entries, path, original, state);
            let has_none = forall|i: int|
                0 <= i < entries.len() ==> (#[trigger] entries[i]).path != path;
            let wanted = path.len() > 0 && !leads_through_heavy(path);
            &&& !wanted ==> after == entries
            &&& wanted && has_none ==> after == entries.push(
                EntryModel { path, original, expected: Some(state) },
            )
            &&& wanted && !has_none ==> after.len() == entries.len()
            &&& wanted && 0 <= k < entries.len() && entries[k].path == path && (forall|i: int|
                0 <= i < k ==> (#[trigger] entries[i]).path != path) ==> after == entries.update(
                k,
                EntryModel { expected: Some(state), ..entries[k] },
            )
        }),
{
    law_which_paths_are_recorded(path);
    lemma_no_entry(entries, path);
    manifest::lemma_entry_index(entries, path);
    if 0 <= k < entries.len() && entries[k].path == path && (forall|i: int|
        0 <= i < k ==> (#[trigger] entries[i]).path != path) {
        lemma_first_entry(entries, path, k);
    }
}

/// The entry of a path is the first one with that path.
proof fn lemma_first_entry(entries: Seq<EntryModel>, path: Seq<char>, k: int)
    requires
        0 <= k < entries.len(),
        entries[k].path == path,
        forall|i: int| 0 <= i < k ==> (#[trigger] entries[i]).path != path,
    ensures
        manifest::entry_index(entries, path) == Some(k),
    decreases entries.len(),
{
    let front = entries.drop_last();
    if k < front.len() {
        assert(front[k] == entries[k]);
        assert forall|i: int| 0 <= i < k implies (#[trigger] front[i]).path != path by {
            assert(front[i] == entries[i]);
        }
        lemma_first_entry(front, path, k);
    } else {
        lemma_no_entry(front, path);
        assert forall|i: int| 0 <= i < front.len() implies (#[trigger] front[i]).path != path by {
            assert(front[i] == entries[i]);
        }
    }
}

/// Two paths are the same where both are absolute or both are not, and their
/// components agree: slashes at the end make no difference.
pub proof fn law_same_paths(a: Seq<char>, b: Seq<char>)
    ensures
        manifest::same_path(a, a),
        manifest::same_path(a, b) == manifest::same_path(b, a),
        a.len() > 0 ==> manifest::same_path(a, a + seq!['/']),
        manifest::same_path(a, b) ==> paths::path_parts(a) == paths::path_parts(b),
        a.len() > 0 && a[0] == '/' && (b.len() == 0 || b[0] != '/') ==> !manifest::same_path(a, b),
        a.len() > 0 && a[0] == '/' && b.len() > 0 && b[0] == '/' && paths::path_parts(a)
            == paths::path_parts(b) ==> manifest::same_path(a, b),
{
    if a.len() > 0 {
        lemma_slash_at_the_end(a);
    }
    if manifest::same_path(a, b) {
        lemma_components_give_parts(a, b);
    }
    path_laws::law_components_of_paths(a, Seq::empty());
    path_laws::law_components_of_paths(b, Seq::empty());
}

proof fn lemma_slash_at_the_end(a: Seq<char>)
    requires
        a.len() > 0,
    ensures
        manifest::same_path(a, a + seq!['/']),
{
    let none = Seq::<char>::empty();
    let ended = a + seq!['/'];
    path_laws::lemma_parts_join(a, none);
    path_laws::lemma_split_concat(a, '/', none);
    assert(a + seq!['/'] + none =~= ended);
    path_laws::lemma_no_dot_parts(a);
    assert(text::split_char(ended, '/')[0] == text::split_char(a, '/')[0]);
    assert(ended[0] == a[0]);
    assert(paths::path_parts(ended) =~= paths::path_parts(a));
}

proof fn lemma_components_give_parts(a: Seq<char>, b: Seq<char>)
    requires
        paths::path_components(a) == paths::path_components(b),
    ensures
        paths::path_parts(a) == paths::path_parts(b),
{
    let dot = "."@;
    path_laws::lemma_no_dot_parts(a);
    path_laws::lemma_no_dot_parts(b);
    let p = paths::path_parts(a);
    let q = paths::path_parts(b);
    if p.len() > 0 {
        assert(p.contains(p[0]));
    }
    if q.len() > 0 {
        assert(q.contains(q[0]));
    }
    let c = seq![dot] + p;
    let d = seq![dot] + q;
    assert(c.skip(1) =~= p);
    assert(d.skip(1) =~= q);
    assert(c[0] == dot && d[0] == dot);
}

/// A checkpoint is recorded into where it is there and belongs to the
/// directory. Of several, those are taken, in their order.
pub proof fn law_which_checkpoints_are_taken(
    ids: Seq<Seq<char>>,
    found: Seq<Option<ManifestModel>>,
    root: Seq<char>,
    id: Seq<char>,
)
    requires
        found.len() <= ids.len(),
    ensures
        recording::effective(ids, found, recording::of_directory(root)).contains(id) <==> exists|
            i: int,
        |
            0 <= i < found.len() && ids[i] == id && (#[trigger] found[i]) is Some
                && manifest::same_path(root, found[i]->0.work_dir),
        recording::some_belongs(found, recording::of_directory(root)) <==> exists|i: int|
            0 <= i < found.len() && (#[trigger] found[i]) is Some && manifest::same_path(
                root,
                found[i]->0.work_dir,
            ),
    decreases found.len(),
{
    let here = recording::of_directory(root);
    if found.len() > 0 {
        let n = found.len() - 1;
        let front = found.take(n);
        law_which_checkpoints_are_taken(ids, front, root, id);
        let before = recording::effective(ids, front, here);
        let all = recording::effective(ids, found, here);
        if before.contains(id) {
            let i = choose|i: int|
                0 <= i < front.len() && ids[i] == id && (#[trigger] front[i]) is Some
                    && manifest::same_path(root, front[i]->0.work_dir);
            assert(found[i] == front[i]);
            let k = choose|k: int| 0 <= k < before.len() && before[k] == id;
            assert(all[k] == id);
        }
        if recording::to_record(found[n], here) is Some && ids[n] == id {
            assert(all[before.len() as int] == id);
        }
        if all.contains(id) && !before.contains(id) {
            let k = choose|k: int| 0 <= k < all.len() && all[k] == id;
            if k < before.len() {
                assert(before[k] == id);
            }
            assert(found[n] is Some);
        }
        if exists|i: int|
            0 <= i < found.len() && ids[i] == id && (#[trigger] found[i]) is Some
                && manifest::same_path(root, found[i]->0.work_dir) {
            let i = choose|i: int|
                0 <= i < found.len() && ids[i] == id && (#[trigger] found[i]) is Some
                    && manifest::same_path(root, found[i]->0.work_dir);
            if i < n {
                assert(front[i] == found[i]);
            }
        }
    }
    if recording::some_belongs(found, here) {
        let i = choose|i: int|
            0 <= i < found.len() && recording::to_record(#[trigger] found[i], here) is Some;
        assert(found[i] is Some);
    }
    if exists|i: int|
        0 <= i < found.len() && (#[trigger] found[i]) is Some && manifest::same_path(
            root,
            found[i]->0.work_dir,
        ) {
        let i = choose|i: int|
            0 <= i < found.len() && (#[trigger] found[i]) is Some && manifest::same_path(
                root,
                found[i]->0.work_dir,
            );
        assert(recording::to_record(found[i], here) is Some);
    }
}

/// A file is asked for only where it is to be recorded: the first time
/// before a change, and after a change where it has an entry. A checkpoint
/// that is not there, or of another directory, is left alone.
pub proof fn law_when_a_file_is_asked_for(
    m: ManifestModel,
    root: Seq<char>,
    path: Seq<char>,
    state: StateModel,
)
    ensures
        ({
            let here = recording::of_directory(root);
            let step = |given: Option<StateModel>, after: bool|
                recording::file_step(Some(m), here, path, given, after);
            let belongs = manifest::same_path(root, m.work_dir);
            let has_none = forall|i: int|
                0 <= i < m.entries.len() ==> (#[trigger] m.entries[i]).path != path;
            let wanted = belongs && path.len() > 0 && (is_marked(path) || !leads_through_heavy(
                path,
            ));
            &&& recording::file_step(None, here, path, Some(state), false) is Leave
            &&& wanted && has_none ==> step(None, false) is Ask && step(Some(state), false)
                == FileStepModel::Write(manifest::recorded(m, path, state)) && step(
                None,
                true,
            ) is Leave && step(Some(state), true) is Leave
            &&& wanted && !has_none ==> step(None, false) is Leave && step(
                Some(state),
                false,
            ) is Leave && step(None, true) is Ask && step(Some(state), true)
                == FileStepModel::Write(manifest::recorded_after(m, path, state))
            &&& !wanted ==> step(None, false) is Leave && step(None, true) is Leave && step(
                Some(state),
                false,
            ) is Leave && step(Some(state), true) is Leave
        }),
{
    law_which_paths_are_recorded(path);
    lemma_no_entry(m.entries, path);
}

// ---------------------------------------------------------------------
// What Git knows
// ---------------------------------------------------------------------

/// A baseline is a commit and how deep the directory lies in its repository;
/// a directory outside has none, and a baseline holds as long as the
/// directory lies where it lay.
pub proof fn law_baselines(root: Seq<char>, head: Seq<char>, rest: Seq<char>)
    requires
        root.len() > 0,
        !text::joined(paths::path_parts(rest), seq!['/']).contains('\\'),
    ensures
        ({
            let dir = root + seq!['/'] + rest;
            let below = text::joined(paths::path_parts(rest), seq!['/']);
            let b = baseline::baseline_at(root, head, dir);
            &&& b == Some(
                BaselineModel { repository_root: root, work_dir_prefix: below, head },
            )
            &&& baseline::still_holds(b->0, dir)
        }),
{
    let below = text::joined(paths::path_parts(rest), seq!['/']);
    path_laws::law_below_a_directory(root, rest, root);
    text_laws::law_replacing(below, Seq::empty(), '\\', "/"@);
}

/// A directory that does not lie in a repository has no baseline there.
pub proof fn law_no_baseline_outside(root: Seq<char>, head: Seq<char>, dir: Seq<char>)
    requires
        paths::path_below(dir, root) is None,
    ensures
        baseline::baseline_at(root, head, dir) is None,
        forall|b: BaselineModel|
            b.repository_root == root ==> !#[trigger] baseline::still_holds(b, dir),
{
}

/// A file of a commit is named by the commit, a colon, and the path from the
/// root of the repository, however the depth of the directory is written.
pub proof fn law_names_of_objects(b: BaselineModel, depth: Seq<char>, path: Seq<char>)
    requires
        depth.len() == 0 || depth.last() != '/',
    ensures
        b.work_dir_prefix.len() == 0 ==> baseline::object_spec(b, path) == b.head + seq![':']
            + path,
        depth.len() > 0 && (b.work_dir_prefix == depth || b.work_dir_prefix == depth + seq!['/'])
            ==> baseline::object_spec(b, path) == b.head + seq![':'] + (depth + seq!['/'] + path),
{
    reveal_strlit(":");
    reveal_strlit("/");
    assert(":"@ =~= seq![':']);
    assert("/"@ =~= seq!['/']);
    if depth.len() > 0 {
        let ended = depth + seq!['/'];
        assert(ended.drop_last() =~= depth);
        assert(text::without_trailing(depth, '/') == depth);
        assert(text::without_trailing(ended, '/') == text::without_trailing(depth, '/'));
    }
}

/// Names are parted by zeros.
pub proof fn law_names_between_zeros(a: Seq<u8>, b: Seq<u8>)
    ensures
        !a.contains(0u8) ==> baseline::between_zeros(a) == seq![a],
        baseline::between_zeros(a + seq![0u8] + b) == baseline::between_zeros(a)
            + baseline::between_zeros(b),
    decreases a.len(), b.len(),
{
    let s = a + seq![0u8] + b;
    lemma_some_name(a);
    lemma_some_name(b);
    if !a.contains(0u8) {
        if a.len() == 0 {
            assert(a =~= Seq::<u8>::empty());
            assert(baseline::between_zeros(a) =~= seq![a]);
        } else {
            let front = a.drop_last();
            assert(!front.contains(0u8)) by {
                if front.contains(0u8) {
                    let k = choose|k: int| 0 <= k < front.len() && front[k] == 0u8;
                    assert(a[k] == 0u8);
                }
            }
            law_names_between_zeros(front, b);
            assert(a.contains(a[a.len() - 1]));
            assert(front.push(a.last()) =~= a);
            let one = seq![front];
            assert(one.update(one.len() - 1, one.last().push(a.last())) =~= seq![a]);
            assert(baseline::between_zeros(front) == one);
        }
    }
    if b.len() == 0 {
        assert(s.drop_last() =~= a);
        assert(s.last() == 0u8);
        assert(baseline::between_zeros(s) =~= baseline::between_zeros(a)
            + baseline::between_zeros(b));
    } else {
        law_names_between_zeros_step(a, b);
    }
}

proof fn law_names_between_zeros_step(a: Seq<u8>, b: Seq<u8>)
    requires
        b.len() > 0,
    ensures
        baseline::between_zeros(a + seq![0u8] + b) == baseline::between_zeros(a)
            + baseline::between_zeros(b),
    decreases b.len(),
{
    let s = a + seq![0u8] + b;
    let front = b.drop_last();
    lemma_some_name(a);
    lemma_some_name(front);
    assert(s.drop_last() =~= a + seq![0u8] + front);
    assert(s.last() == b.last());
    if front.len() > 0 {
        law_names_between_zeros_step(a, front);
    } else {
        let t = a + seq![0u8] + front;
        assert(t.drop_last() =~= a);
        assert(t.last() == 0u8);
        assert(baseline::between_zeros(front) =~= seq![Seq::<u8>::empty()]);
        assert(baseline::between_zeros(t) =~= baseline::between_zeros(a)
            + baseline::between_zeros(front));
    }
    assert(baseline::between_zeros(s) =~= baseline::between_zeros(a) + baseline::between_zeros(b));
}

proof fn lemma_some_name(s: Seq<u8>)
    ensures
        baseline::between_zeros(s).len() > 0,
    decreases s.len(),
{
    if s.len() > 0 {
        lemma_some_name(s.drop_last());
    }
}

/// A name of the repository is taken relative to the directory: the whole
/// name where the directory is the root, and else what stands behind the
/// directory and a slash; a name elsewhere is none of the directory. A dot
/// and a slash in front make no difference.
pub proof fn law_names_in_the_directory(name: Seq<u8>, depth: Seq<char>, rest: Seq<char>)
    requires
        name.len() > 0,
        !text::lossy_text(name).contains('\\'),
    ensures
        ({
            let t = text::lossy_text(name);
            let dotted = text::begins(t, seq!['.', '/']);
            &&& !dotted ==> baseline::in_work_dir(name, Seq::empty()) == Some(t)
            &&& t == seq!['.', '/'] + rest && !text::begins(rest, seq!['.', '/'])
                ==> baseline::in_work_dir(name, Seq::empty()) == Some(rest)
            &&& !dotted && depth.len() > 0 && t == depth + seq!['/'] + rest
                ==> baseline::in_work_dir(name, depth) == Some(rest)
            &&& !dotted && depth.len() > 0 && !text::begins(t, depth + seq!['/'])
                ==> baseline::in_work_dir(name, depth) is None
        }),
{
    reveal_strlit("/");
    assert("/"@ =~= seq!['/']);
    let t = text::lossy_text(name);
    text_laws::law_replacing(t, Seq::empty(), '\\', "/"@);
    lemma_no_dots(t);
    lemma_no_dots(rest);
    if t == seq!['.', '/'] + rest {
        assert(t[0] == '.' && t[1] == '/');
        assert(t.skip(2) =~= rest);
    }
    let front = depth + seq!['/'];
    if t == depth + seq!['/'] + rest {
        assert(t.take(front.len() as int) =~= front);
        assert(t.skip(front.len() as int) =~= rest);
    }
}

proof fn lemma_no_dots(t: Seq<char>)
    requires
        true,
    ensures
        !text::begins(t, seq!['.', '/']) ==> baseline::without_dots(t) == t,
{
    if t.len() >= 2 && t[0] == '.' && t[1] == '/' {
        assert(t.take(2) =~= seq!['.', '/']);
    }
}

/// A checkpoint is kept alive in the repository under its own name, and let
/// go by the same name.
pub proof fn law_names_of_checkpoints(id: Seq<char>, head: Seq<char>)
    ensures
        baseline::ref_arguments(id, head, false) == seq![
            "update-ref"@,
            "refs/snow/checkpoints/"@ + id,
            head,
        ],
        baseline::ref_arguments(id, head, true) == seq![
            "update-ref"@,
            "-d"@,
            "refs/snow/checkpoints/"@ + id,
        ],
{
}

/// What a run printed counts where it succeeded, white space around it
/// aside.
pub proof fn law_what_runs_print(run: RunModel)
    ensures
        run.success ==> baseline::printed_text(run) == Some(
            text::trimmed(text::lossy_text(run.stdout)),
        ),
        !run.success ==> baseline::printed_text(run) is None,
{
}

// ---------------------------------------------------------------------
// Before a command
// ---------------------------------------------------------------------

/// A file that was kept before, with the same time and the same size, is not
/// kept again; any difference in either makes it be kept again.
pub proof fn law_marks_of_files(
    marks: Map<Seq<char>, FingerprintModel>,
    key: Seq<char>,
    mtime_ms: u64,
    size: u64,
)
    ensures
        !marks.contains_key(key) ==> before::mark_of(marks, key, mtime_ms, size) is None,
        marks.contains_key(key) && (marks[key].mtime_ms != mtime_ms || marks[key].size != size)
            ==> before::mark_of(marks, key, mtime_ms, size) is None,
        marks.contains_key(key) && marks[key].mtime_ms == mtime_ms && marks[key].size == size
            ==> before::mark_of(marks, key, mtime_ms, size) == Some(marks[key].object_id),
{
}

/// A new mark leaves the others, as long as there are fewer than a
/// hundred thousand.
pub proof fn law_other_marks_stay(
    marks: Map<Seq<char>, FingerprintModel>,
    key: Seq<char>,
    mark: FingerprintModel,
    other: Seq<char>,
)
    requires
        other != key,
        marks.len() < 100000,
    ensures
        before::marking(marks, key, mark).contains_key(other) == marks.contains_key(other),
        marks.contains_key(other) ==> before::marking(marks, key, mark)[other] == marks[other],
{
}

/// What is kept of a file before a command. Outside a listing of Git, a file
/// that Git knows is not kept, since the commit has it, and one that was
/// marked is taken by its mark. Any other file is asked for; what the reply
/// says is kept, skipped or gone is taken so, and a failure is told.
pub proof fn law_what_is_kept_of_a_file(
    source: ListingSource,
    file: ListedModel,
    under_git: bool,
    hit: Option<Seq<char>>,
    id: Seq<char>,
    e: ErrorModel,
)
    ensures
        ({
            let r = before::settled(source, file, under_git, hit);
            let by_git = source == ListingSource::Git;
            let known = !by_git && (under_git || hit is Some);
            &&& !by_git && under_git ==> (r matches SettledModel::Keep(p) && p.object_id is None
                && !p.skipped && p.under_git)
            &&& !by_git && !under_git && hit is Some ==> (r matches SettledModel::Keep(p)
                && p.object_id == hit && !p.skipped && !p.under_git)
            &&& !known && file.copied is None ==> r is Ask
            &&& !known && file.copied == Some(CopyModel::Kept(id)) ==> (
            r matches SettledModel::Keep(p) && p.object_id == Some(id) && !p.skipped)
            &&& !known && file.copied == Some(CopyModel::Skipped) ==> (
            r matches SettledModel::Keep(p) && p.object_id is None && p.skipped)
            &&& !known && file.copied == Some(CopyModel::Gone) ==> r is Omit
            &&& !known && file.copied == Some(CopyModel::Failed(e)) ==> r == SettledModel::Failed(e)
            &&& r matches SettledModel::Keep(p) ==> p.path == file.path && p.under_git == under_git
                && (!by_git ==> p.mtime_ms == file.mtime_ms && p.size == file.size) && (by_git
                ==> p.mtime_ms == 0 && p.size == 0)
        }),
{
}

/// A file that is gone by the time it is read is no failure; one that is
/// still there is.
pub proof fn law_what_copying_gives(id: Seq<char>, e: ErrorModel)
    ensures
        before::copy_outcome(
            Ok::<StateModel, ErrorModel>(StateModel::Object { object_id: id }),
            true,
        ) == CopyModel::Kept(id),
        before::copy_outcome(Ok::<StateModel, ErrorModel>(StateModel::Missing), true)
            == CopyModel::Gone,
        before::copy_outcome(Err::<StateModel, ErrorModel>(e), true) == CopyModel::Failed(e),
        before::copy_outcome(Err::<StateModel, ErrorModel>(e), false) == CopyModel::Gone,
{
}

/// What Git lists are the files that it knows to have changed and those that
/// it does not know, in that order; the first are those that a commit has.
pub proof fn law_what_git_lists(changed: Seq<Seq<char>>, unknown: Seq<Seq<char>>, i: int)
    ensures
        ({
            let list = before::git_listing(changed, unknown);
            &&& list.source == ListingSource::Git
            &&& list.under_git == changed
            &&& list.files.len() == changed.len() + unknown.len()
            &&& 0 <= i < changed.len() ==> list.files[i].path == changed[i]
                && list.files[i].copied is None
            &&& 0 <= i < unknown.len() ==> list.files[changed.len() + i].path == unknown[i]
                && list.files[changed.len() + i].copied is None
        }),
{
}

/// The commit to compare with is the one that a checkpoint has, as long as
/// the directory lies where it lay; else it is found anew. Away from Git
/// there is none.
pub proof fn law_which_commit_is_used(
    f: CaptureFactsModel,
    root: Seq<char>,
    b: BaselineModel,
)
    ensures
        !f.by_git ==> before::baseline_in_use(f, root, Some(b)) == Some(None::<BaselineModel>),
        !f.by_git ==> before::baseline_in_use(f, root, None) == Some(None::<BaselineModel>),
        f.by_git && baseline::still_holds(b, root) ==> before::baseline_in_use(f, root, Some(b))
            == Some(Some(b)),
        f.by_git && !baseline::still_holds(b, root) ==> before::baseline_in_use(f, root, Some(b))
            == f.detected,
        f.by_git ==> before::baseline_in_use(f, root, None) == f.detected,
{
}

/// Files are listed by Git where there is a commit, and by a walk where
/// there is none, or where Git or what it listed failed. Each listing is
/// asked for once, before anything is kept.
pub proof fn law_how_files_are_listed(
    ids: Seq<Seq<char>>,
    dir: Seq<char>,
    f: CaptureFactsModel,
    b: BaselineModel,
    marks: Map<Seq<char>, FingerprintModel>,
)
    ensures
        ({
            let turn = |in_use: Option<Option<BaselineModel>>|
                before::source_turn(ids, dir, f, in_use, marks);
            &&& turn(None).end is AskBaseline
            &&& f.walked is Unasked ==> turn(Some(None)).end == (EndModel::AskWalk {
                tracked_by: None,
            })
            &&& f.git_listing is Unasked ==> turn(Some(Some(b))).end == (EndModel::AskGit {
                baseline: b,
            })
            &&& f.git_listing is Failed && f.walked is Unasked ==> turn(Some(Some(b))).end == (
            EndModel::AskWalk { tracked_by: Some(b) })
            &&& (f.walked matches ListingReplyModel::Failed(e) ==> turn(Some(None)).end
                == EndModel::Failed(e))
            &&& (f.walked matches ListingReplyModel::Listed(list) ==> turn(Some(None)).end
                == before::capture_end(ids, dir, None, list, marks))
            &&& (f.git_listing matches ListingReplyModel::Listed(list) ==> !(before::capture_end(
                ids,
                dir,
                Some(b),
                list,
                marks,
            ) is Failed) ==> turn(Some(Some(b))).end == before::capture_end(
                ids,
                dir,
                Some(b),
                list,
                marks,
            ))
        }),
{
}

// ---------------------------------------------------------------------
// After a command
// ---------------------------------------------------------------------

/// A file that a commit has, and that was not kept, is held against the
/// commit: it changed where it is gone, or holds something other than the
/// commit has; one that the commit does not have is new. An untouched file,
/// a directory, and anything where no commit is known, did not change.
pub proof fn law_changes_of_committed_files(
    has_git: bool,
    p: PendingModel,
    o: ObservedModel,
    stat: NodeStat,
    bytes: Seq<u8>,
    now: StateModel,
    e: ErrorModel,
)
    requires
        o.state == Some(StateReplyModel::Is(now)),
    ensures
        ({
            let r = after::judged_committed(has_git, p, o);
            let seen = o.stat == Some(stat);
            let touched = stat.mtime_ms != p.mtime_ms || stat.size != p.size;
            let looked = seen && touched && !stat.is_dir && has_git;
            let same = now == (StateModel::Object { object_id: content::content_id(bytes) });
            &&& o.stat is None ==> r == (VerdictModel::Changed {
                original: StateModel::Git,
                expected: now,
            })
            &&& seen && !looked ==> r is Same
            &&& looked && o.committed is None ==> r is AskCommitted
            &&& looked && o.committed == Some(StoredModel::Failed(e)) ==> r
                == VerdictModel::Failed(e)
            &&& looked && o.committed == Some(StoredModel::Content(bytes)) && same ==> r is Same
            &&& looked && o.committed == Some(StoredModel::Content(bytes)) && !same ==> r == (
            VerdictModel::Changed { original: StateModel::Git, expected: now })
            &&& looked && o.committed == Some(StoredModel::Absent) && stat.is_file ==> r == (
            VerdictModel::Changed { original: StateModel::Missing, expected: now })
            &&& looked && o.committed == Some(StoredModel::Absent) && !stat.is_file ==> r is Same
        }),
{
}

/// A file that was skipped before a command is never told to have changed.
pub proof fn law_skipped_files_stay_out(
    source: ListingSource,
    has_git: bool,
    p: PendingModel,
    o: ObservedModel,
)
    requires
        p.skipped,
    ensures
        after::judged(source, has_git, Some(p), o) is Same,
{
}

/// Of several states of a path the last one counts.
pub proof fn law_last_state_counts(states: Seq<PendingModel>, p: PendingModel, path: Seq<char>)
    ensures
        p.path == path ==> after::state_before(states.push(p), path) == Some(p),
        p.path != path ==> after::state_before(states.push(p), path) == after::state_before(
            states,
            path,
        ),
        after::state_before(Seq::empty(), path) is None,
{
    assert(states.push(p).drop_last() =~= states);
    assert(states.push(p).last() == p);
}

/// The mark of a file is its own: it tells the directory and the path.
pub proof fn law_marks_are_told_apart(
    a: Seq<char>,
    b: Seq<char>,
    path: Seq<char>,
    other: Seq<char>,
)
    requires
        !a.contains('\0'),
        !b.contains('\0'),
        before::mark_key(a, path) == before::mark_key(b, other),
    ensures
        a == b,
        path == other,
{
    reveal_strlit("\0");
    let s = before::mark_key(a, path);
    let t = before::mark_key(b, other);
    assert(s =~= a + seq!['\0'] + path);
    assert(t =~= b + seq!['\0'] + other);
    text_laws::law_split_takes_the_first(a, '\0', path);
    text_laws::law_split_takes_the_first(b, '\0', other);
    assert(a.len() == b.len());
    assert(s.take(a.len() as int) =~= a);
    assert(t.take(a.len() as int) =~= b);
    assert(s.skip(a.len() as int + 1) =~= path);
    assert(t.skip(a.len() as int + 1) =~= other);
}

/// Two checkpoints have the same identifier only where the seconds, the
/// nanoseconds and the count of both agree. It begins with what marks a
/// checkpoint.
pub proof fn law_identifiers_are_told_apart(
    secs: u64,
    nanos: u32,
    count: u64,
    secs2: u64,
    nanos2: u32,
    count2: u64,
)
    ensures
        paths::id_at(secs, nanos, count) == paths::id_at(secs2, nanos2, count2) ==> secs == secs2
            && nanos == nanos2 && count == count2,
        text::begins(paths::id_at(secs, nanos, count), seq!['c', 'p', '-']),
{
    reveal_strlit("cp-");
    reveal_strlit("-");
    let a = paths::id_at(secs, nanos, count);
    let b = paths::id_at(secs2, nanos2, count2);
    let x = text::decimal(nanos as nat) + seq!['-'] + text::decimal(count as nat);
    let y = text::decimal(nanos2 as nat) + seq!['-'] + text::decimal(count2 as nat);
    assert(a =~= seq!['c', 'p', '-'] + (text::decimal(secs as nat) + seq!['-'] + x));
    assert(b =~= seq!['c', 'p', '-'] + (text::decimal(secs2 as nat) + seq!['-'] + y));
    assert(a.take(3) =~= seq!['c', 'p', '-']);
    if a == b {
        assert(a.skip(3) =~= text::decimal(secs as nat) + seq!['-'] + x);
        assert(b.skip(3) =~= text::decimal(secs2 as nat) + seq!['-'] + y);
        text_laws::law_numbers_end(secs as nat, secs2 as nat, '-', x, y);
        text_laws::law_numbers_end(
            nanos as nat,
            nanos2 as nat,
            '-',
            text::decimal(count as nat),
            text::decimal(count2 as nat),
        );
        text_laws::law_decimal_reads_back(count as nat);
        text_laws::law_decimal_reads_back(count2 as nat);
    }
}

/// Whether a checkpoint is one of here and has a commit.
pub open spec fn gives_commit(
    found: Option<ManifestModel>,
    here: spec_fn(Seq<char>) -> bool,
) -> bool {
    found is Some && here(found->0.work_dir) && found->0.git is Some
}

/// The commit to compare with is the one of the first checkpoint here that
/// has one; where none here has one, there is none.
pub proof fn law_commit_of_the_first_checkpoint(
    found: Seq<Option<ManifestModel>>,
    here: spec_fn(Seq<char>) -> bool,
    i: int,
)
    ensures
        ({
            let used = baseline::first_baseline(found, here);
            &&& 0 <= i < found.len() && gives_commit(found[i], here) && (forall|j: int|
                0 <= j < i ==> !#[trigger] gives_commit(found[j], here)) ==> used == found[i]->0.git
            &&& (forall|j: int| 0 <= j < found.len() ==> !#[trigger] gives_commit(found[j], here)) ==> used is None
        }),
    decreases found.len(),
{
    if found.len() > 0 {
        let front = found.drop_last();
        law_commit_of_the_first_checkpoint(front, here, i);
        assert forall|j: int| 0 <= j < front.len() implies front[j] == found[j] by {}
        assert(found.last() == found[found.len() - 1]);
        if 0 <= i < found.len() && gives_commit(found[i], here) && (forall|j: int|
            0 <= j < i ==> !#[trigger] gives_commit(found[j], here)) {
            if i < front.len() {
                assert(gives_commit(front[i], here));
                assert forall|j: int| 0 <= j < i implies !#[trigger] gives_commit(front[j], here) by {
                    assert(!gives_commit(found[j], here));
                }
            } else {
                assert forall|j: int| 0 <= j < front.len() implies !#[trigger] gives_commit(front[j], here) by {
                    assert(!gives_commit(found[j], here));
                }
            }
        }
        if forall|j: int| 0 <= j < found.len() ==> !#[trigger] gives_commit(found[j], here) {
            assert forall|j: int| 0 <= j < front.len() implies !#[trigger] gives_commit(front[j], here) by {
                assert(!gives_commit(found[j], here));
            }
            assert(!gives_commit(found[found.len() - 1], here));
        }
    }
}

/// What a listing adds for each name in it: the names before a zero byte and
/// those behind it give their paths, in that order.
pub proof fn law_paths_of_listings(a: Seq<u8>, b: Seq<u8>, depth: Seq<char>)
    ensures
        baseline::work_paths(a + seq![0u8] + b, depth) == baseline::work_paths(a, depth)
            + baseline::work_paths(b, depth),
        !a.contains(0u8) ==> baseline::work_paths(a, depth) == (match baseline::in_work_dir(
            a,
            depth,
        ) {
            Some(path) => seq![path],
            None => Seq::empty(),
        }),
{
    let f = |name: Seq<u8>| baseline::in_work_dir(name, depth);
    law_names_between_zeros(a, b);
    crate::chat::laws::lemma_filter_map_concat(
        baseline::between_zeros(a),
        baseline::between_zeros(b),
        f,
    );
    if !a.contains(0u8) {
        reveal(Seq::filter_map);
        assert(seq![a].drop_last() =~= Seq::empty());
        assert(Seq::<Seq<u8>>::empty().filter_map(f) =~= Seq::empty());
        assert(seq![a].last() == a);
        assert(baseline::work_paths(a, depth) =~= (match f(a) {
            Some(path) => seq![path],
            None => Seq::empty(),
        }));
    }
}

/// What one file of a listing does: the files before it stay as they were
/// told, and the file comes behind them, is asked for, stops the listing, or
/// is left out. A file whose content was kept anew is marked with its time
/// and its size, unless Git listed it; no other file is.
pub proof fn law_what_a_listed_file_adds(
    dir: Seq<char>,
    listing: WorktreeModel,
    so_far: ScanModel,
    file: ListedModel,
)
    requires
        so_far.stopped is None,
    ensures
        ({
            let key = dir + seq!['\0'] + file.path;
            let by_git = listing.source == ListingSource::Git;
            let under_git = listing.under_git.contains(file.path);
            let hit = before::mark_of(so_far.marks, key, file.mtime_ms, file.size);
            let next = before::scanned_one(dir, listing, so_far, file);
            let known = !by_git && (under_git || hit is Some);
            &&& known || file.copied matches Some(CopyModel::Kept(_)) || file.copied == Some(
                CopyModel::Skipped,
            ) ==> {
                &&& next.stopped is None
                &&& next.states.drop_last() == so_far.states
                &&& next.states.last().path == file.path
            }
            &&& !known && file.copied is None ==> next.states == so_far.states && next.marks
                == so_far.marks && next.stopped == Some(
                EndModel::Ask { source: listing.source, path: file.path },
            )
            &&& !known && file.copied == Some(CopyModel::Gone) ==> next == so_far
            &&& !known && file.copied is Some && file.copied->0 is Failed ==> next.stopped == Some(
                EndModel::Failed(file.copied->0->Failed_0),
            ) && next.marks == so_far.marks
            &&& !known && !by_git && file.copied is Some && file.copied->0 is Kept ==> {
                &&& next.marks.contains_key(key)
                &&& next.marks[key].mtime_ms == file.mtime_ms
                &&& next.marks[key].size == file.size
                &&& next.marks[key].object_id == file.copied->0->Kept_0
            }
            &&& by_git || known || !(file.copied is Some && file.copied->0 is Kept) ==> next.marks
                == so_far.marks
        }),
{
    reveal_strlit("\0");
    let key = dir + seq!['\0'] + file.path;
    assert(before::mark_key(dir, file.path) =~= key);
    let next = before::scanned_one(dir, listing, so_far, file);
    if next.states.len() > so_far.states.len() {
        assert(next.states.drop_last() =~= so_far.states);
    }
}

/// The manifests are asked for one after another, until one belongs to the
/// directory, or to the last where all of them are needed. Where none
/// belongs, nothing is done.
pub proof fn law_manifests_are_asked_for(
    ids: Seq<Seq<char>>,
    dir: Seq<char>,
    f: CaptureFactsModel,
    read_all: bool,
    belongs: bool,
    in_use: Option<Option<BaselineModel>>,
    marks: Map<Seq<char>, FingerprintModel>,
)
    ensures
        ({
            let turn = before::turn_of(ids, dir, f, read_all, belongs, in_use, marks);
            let more = f.found.len() < ids.len();
            &&& more && (read_all || !belongs) ==> turn.end == (EndModel::AskManifest {
                checkpoint_id: ids[f.found.len() as int],
            })
            &&& !more && !belongs ==> turn.end is Nothing
            &&& !belongs ==> turn.marks == marks
            &&& belongs && (!more || !read_all) && in_use is None ==> turn.end is AskBaseline
        }),
{
}

} // verus!
