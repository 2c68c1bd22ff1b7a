//! What holds of checkpoints across recording, showing and going back.

use vstd::prelude::*;
use crate::checkpoint::after;
use crate::checkpoint::after::{NodeStat, ObservedModel, RecordEndModel, StateReplyModel};
use crate::checkpoint::before::{CaptureModel, ListingSource, PendingModel};
use crate::checkpoint::listing;
use crate::checkpoint::listing::ChangeModel;
use crate::checkpoint::manifest;
use crate::checkpoint::manifest::{EntryModel, ManifestModel, StateModel};
use crate::checkpoint::paths;
use crate::checkpoint::restore;
use crate::checkpoint::restore::World;
use crate::checkpoint::sight;
use crate::checkpoint::sight::{FactsModel, Sight};
use crate::checkpoint::walk;
use crate::checkpoint::walk::{WalkEntryModel, WalkModel};
use crate::error::ErrorModel;
use crate::order;
use crate::rows;
use crate::text;
use crate::text_laws;
use crate::text_laws::is_piece;

verus! {

// ---------------------------------------------------------------------
// Which paths are recorded
// ---------------------------------------------------------------------

/// Whether a name is one of the directories that hold what is built,
/// downloaded or kept by tools.
pub open spec fn is_heavy(name: Seq<char>) -> bool {
    ||| name == "node_modules"@
    ||| name == ".git"@
    ||| name == ".svn"@
    ||| name == ".hg"@
    ||| name == "dist"@
    ||| name == "build"@
    ||| name == ".next"@
    ||| name == ".nuxt"@
    ||| name == "out"@
    ||| name == "coverage"@
    ||| name == ".cache"@
    ||| name == ".turbo"@
    ||| name == ".vercel"@
    ||| name == "target"@
    ||| name == "__pycache__"@
    ||| name == ".venv"@
    ||| name == "venv"@
    ||| name == ".idea"@
    ||| name == ".vscode"@
    ||| name == ".vs"@
    ||| name == ".snow"@
    ||| name == ".snowapp"@
    ||| name == "release"@
    ||| name == ".output"@
    ||| name == ".angular"@
    ||| name == ".parcel-cache"@
}

/// Whether a path leads through such a directory: one of its parts, from
/// slash to slash, has such a name.
pub open spec fn leads_through_heavy(path: Seq<char>) -> bool {
    exists|part: Seq<char>| #[trigger] is_piece(path, '/', part) && is_heavy(part)
}

/// Whether a manifest path is marked as absolute.
pub open spec fn is_marked(path: Seq<char>) -> bool {
    exists|rest: Seq<char>| path == #[trigger] ("\x00abs:"@ + rest)
}

proof fn lemma_heavy_names(name: Seq<char>)
    ensures
        paths::skipped_names().contains(name) <==> is_heavy(name),
{
    let all = paths::skipped_names();
    assert(all[0] == "node_modules"@);
    assert(all[1] == ".git"@);
    assert(all[2] == ".svn"@);
    assert(all[3] == ".hg"@);
    assert(all[4] == "dist"@);
    assert(all[5] == "build"@);
    assert(all[6] == ".next"@);
    assert(all[7] == ".nuxt"@);
    assert(all[8] == "out"@);
    assert(all[9] == "coverage"@);
    assert(all[10] == ".cache"@);
    assert(all[11] == ".turbo"@);
    assert(all[12] == ".vercel"@);
    assert(all[13] == "target"@);
    assert(all[14] == "__pycache__"@);
    assert(all[15] == ".venv"@);
    assert(all[16] == "venv"@);
    assert(all[17] == ".idea"@);
    assert(all[18] == ".vscode"@);
    assert(all[19] == ".vs"@);
    assert(all[20] == ".snow"@);
    assert(all[21] == ".snowapp"@);
    assert(all[22] == "release"@);
    assert(all[23] == ".output"@);
    assert(all[24] == ".angular"@);
    assert(all[25] == ".parcel-cache"@);
    if all.contains(name) {
        let i = choose|i: int| 0 <= i < all.len() && all[i] == name;
        assert(0 <= i < 26);
    }
}

/// A path is left out exactly where one of its parts names a directory of
/// tools; a part that merely looks like one, such as another name with a dot
/// in front, does not count. A path that is marked as absolute never is.
pub proof fn law_which_paths_are_recorded(path: Seq<char>)
    ensures
        paths::skips(path) <==> leads_through_heavy(path),
        paths::skips_entry(path) <==> !is_marked(path) && leads_through_heavy(path),
{
    text_laws::law_split_gives_the_pieces(path, '/');
    text_laws::law_occurrences(path, "\x00abs:"@);
    let all = text::split_char(path, '/');
    if paths::skips(path) {
        let i = choose|i: int|
            0 <= i < all.len() && paths::skipped_names().contains(#[trigger] all[i]);
        lemma_heavy_names(all[i]);
        assert(all.contains(all[i]));
        assert(is_piece(path, '/', all[i]));
    }
    if leads_through_heavy(path) {
        let part = choose|part: Seq<char>| #[trigger]
            is_piece(path, '/', part) && is_heavy(part);
        lemma_heavy_names(part);
        assert(all.contains(part));
        let i = choose|i: int| 0 <= i < all.len() && all[i] == part;
        assert(paths::skipped_names().contains(all[i]));
    }
}

// ---------------------------------------------------------------------
// Going back
// ---------------------------------------------------------------------

/// Whether a manifest says nothing that only Git could give back.
pub open spec fn needs_no_git(entries: Seq<EntryModel>) -> bool {
    forall|i: int|
        0 <= i < entries.len() ==> !((#[trigger] entries[i]).original is Git)
            && entries[i].expected != Some(StateModel::Git)
}

/// What a state stands for: no file, or the content kept under its
/// identifier.
pub open spec fn held(w: World, state: StateModel) -> Option<Seq<u8>> {
    match state {
        StateModel::Object { object_id } => Some(w.objects[object_id]),
        _ => None,
    }
}

/// Whether the content of a state is kept.
pub open spec fn is_kept(w: World, state: StateModel) -> bool {
    state matches StateModel::Object { object_id } ==> w.objects.contains_key(object_id)
}

/// Whether all content that entries speak of is kept.
pub open spec fn all_kept(w: World, entries: Seq<EntryModel>) -> bool {
    forall|i: int|
        0 <= i < entries.len() ==> is_kept(w, (#[trigger] entries[i]).original) && (
        entries[i].expected matches Some(s) ==> is_kept(w, s))
}

proof fn lemma_planned<S: Sight>(
    w: World,
    m: ManifestModel,
    facts: Seq<FactsModel<S::V>>,
    n: int,
)
    requires
        restore::facts_are_of::<S>(w, m, facts),
        needs_no_git(m.entries),
        0 <= n <= m.entries.len(),
    ensures
        restore::plan_of::<S>(m, facts, n).failed is None,
    decreases n,
{
    if n > 0 {
        lemma_planned::<S>(w, m, facts, n - 1);
        let e = m.entries[n - 1];
        let f = facts[n - 1];
        if sight::in_play(e) {
            S::lemma_names(
                f.sight,
                e.path,
                restore::file_in(w, e.path),
                e.expected->Some_0,
                listing::uses_git::<S>(m),
                f.expected,
            );
        }
    }
}

/// Going back to a checkpoint that needs nothing of Git always succeeds.
pub proof fn law_going_back_succeeds<S: Sight>(
    w: World,
    m: ManifestModel,
    facts: Seq<FactsModel<S::V>>,
)
    requires
        restore::facts_are_of::<S>(w, m, facts),
        needs_no_git(m.entries),
    ensures
        restore::restore_plan::<S>(m, facts).failed is None,
{
    lemma_planned::<S>(w, m, facts, m.entries.len() as int);
}

/// An edit of any file outside the directories of tools is recorded with
/// one entry, going back succeeds, and the file gets its first content back.
pub proof fn law_edit_is_taken_back<S: Sight>(
    before: World,
    after: World,
    m: ManifestModel,
    path: Seq<char>,
    facts: Seq<FactsModel<S::V>>,
)
    requires
        path.len() > 0,
        is_marked(path) || !leads_through_heavy(path),
        manifest::paths_differ(m.entries),
        forall|i: int| 0 <= i < m.entries.len() ==> (#[trigger] m.entries[i]).path != path,
        needs_no_git(m.entries),
        restore::keeps(after, restore::file_in(before, path)),
        restore::keeps(after, restore::file_in(after, path)),
        restore::facts_are_of::<S>(
            after,
            manifest::recorded_after(
                manifest::recorded(m, path, restore::state_in(before, path)),
                path,
                restore::state_in(after, path),
            ),
            facts,
        ),
    ensures
        ({
            let whole = manifest::recorded_after(
                manifest::recorded(m, path, restore::state_in(before, path)),
                path,
                restore::state_in(after, path),
            );
            let plan = restore::restore_plan::<S>(whole, facts);
            &&& whole.entries == m.entries.push(
                EntryModel {
                    path,
                    original: restore::state_in(before, path),
                    expected: Some(restore::state_in(after, path)),
                },
            )
            &&& plan.failed is None
            &&& restore::file_in(restore::performed_all(after, plan.steps), path)
                == restore::file_in(before, path)
        }),
{
    law_which_paths_are_recorded(path);
    manifest::lemma_entry_index(m.entries, path);
    let original = restore::state_in(before, path);
    let expected = restore::state_in(after, path);
    let one = manifest::recorded(m, path, original);
    let i = m.entries.len() as int;
    assert(one.entries[i].path == path);
    assert forall|j: int| 0 <= j < i implies (#[trigger] one.entries[j]).path != path by {
        assert(one.entries[j] == m.entries[j]);
    }
    manifest::lemma_entry_index_is(one.entries, path, i);
    let whole = manifest::recorded_after(one, path, expected);
    assert(whole.entries =~= m.entries.push(
        EntryModel { path, original, expected: Some(expected) },
    ));
    assert(needs_no_git(whole.entries));
    law_going_back_succeeds::<S>(after, whole, facts);
    restore::law_recorded_change_is_taken_back::<S>(before, after, m, path, facts);
}

/// A file that was changed again after the recorded change keeps what it
/// holds when going back.
pub proof fn law_later_edit_is_kept<S: Sight>(
    w: World,
    m: ManifestModel,
    facts: Seq<FactsModel<S::V>>,
    i: int,
)
    requires
        0 <= i < m.entries.len(),
        restore::facts_are_of::<S>(w, m, facts),
        manifest::paths_differ(m.entries),
        needs_no_git(m.entries),
        all_kept(w, m.entries),
        m.entries[i].expected is Some,
        restore::file_in(w, m.entries[i].path) != held(w, m.entries[i].expected->Some_0),
    ensures
        restore::file_in(
            restore::performed_all(w, restore::restore_plan::<S>(m, facts).steps),
            m.entries[i].path,
        ) == restore::file_in(w, m.entries[i].path),
{
    let path = m.entries[i].path;
    law_going_back_succeeds::<S>(w, m, facts);
    let f = facts[i];
    let e = m.entries[i];
    S::lemma_names(
        f.sight,
        path,
        restore::file_in(w, path),
        e.expected->Some_0,
        listing::uses_git::<S>(m),
        f.expected,
    );
    assert forall|j: int|
        0 <= j < m.entries.len() && (#[trigger] m.entries[j]).path == path implies !sight::in_play(
        m.entries[j],
    ) || sight::drift::<S>(m.entries[j], listing::uses_git::<S>(m), facts[j]) != Ok::<
        Option<sight::ChangeType>,
        ErrorModel,
    >(None) by {
        if i < j {
            assert(m.entries[i].path != m.entries[j].path);
        }
        if j < i {
            assert(m.entries[j].path != m.entries[i].path);
        }
    }
    restore::law_restore_leaves_the_rest::<S>(w, m, facts, path);
}

/// A change that has not ended, and one in a directory of tools, is not
/// taken back.
pub proof fn law_open_change_is_kept<S: Sight>(
    w: World,
    m: ManifestModel,
    facts: Seq<FactsModel<S::V>>,
    i: int,
)
    requires
        0 <= i < m.entries.len(),
        restore::facts_are_of::<S>(w, m, facts),
        manifest::paths_differ(m.entries),
        needs_no_git(m.entries),
        m.entries[i].expected is None || (!is_marked(m.entries[i].path) && leads_through_heavy(
            m.entries[i].path,
        )),
    ensures
        restore::file_in(
            restore::performed_all(w, restore::restore_plan::<S>(m, facts).steps),
            m.entries[i].path,
        ) == restore::file_in(w, m.entries[i].path),
{
    let path = m.entries[i].path;
    law_which_paths_are_recorded(path);
    law_going_back_succeeds::<S>(w, m, facts);
    assert forall|j: int|
        0 <= j < m.entries.len() && (#[trigger] m.entries[j]).path == path implies !sight::in_play(
        m.entries[j],
    ) || sight::drift::<S>(m.entries[j], listing::uses_git::<S>(m), facts[j]) != Ok::<
        Option<sight::ChangeType>,
        ErrorModel,
    >(None) by {
        if i < j {
            assert(m.entries[i].path != m.entries[j].path);
        }
        if j < i {
            assert(m.entries[j].path != m.entries[i].path);
        }
    }
    restore::law_restore_leaves_the_rest::<S>(w, m, facts, path);
}

// ---------------------------------------------------------------------
// The list of changes
// ---------------------------------------------------------------------

/// Whether an entry stands for a change in a list: the file still is what the
/// recorded change left, differs from what it was first, and the name says
/// how.
pub open spec fn entry_is_change(w: World, e: EntryModel, c: ChangeModel) -> bool {
    let now = restore::file_in(w, e.path);
    &&& e.path == c.path
    &&& is_marked(e.path) || !leads_through_heavy(e.path)
    &&& e.expected is Some
    &&& now == held(w, e.expected->Some_0)
    &&& now != held(w, e.original)
    &&& c.change_type == (if held(w, e.original) is None {
        "added"@
    } else if now is None {
        "deleted"@
    } else {
        "modified"@
    })
}

proof fn lemma_changes<S: Sight>(
    w: World,
    m: ManifestModel,
    facts: Seq<FactsModel<S::V>>,
    n: int,
)
    requires
        restore::facts_are_of::<S>(w, m, facts),
        needs_no_git(m.entries),
        all_kept(w, m.entries),
        0 <= n <= m.entries.len(),
    ensures
        listing::changes_of::<S>(m, facts, n) is Ok,
        forall|c: ChangeModel| #[trigger]
            listing::changes_of::<S>(m, facts, n)->Ok_0.contains(c) <==> exists|i: int|
                0 <= i < n && entry_is_change(w, #[trigger] m.entries[i], c),
    decreases n,
{
    let found = listing::changes_of::<S>(m, facts, n);
    if n <= 0 {
        assert forall|c: ChangeModel| !(#[trigger] found->Ok_0.contains(c)) by {}
    } else {
        lemma_changes::<S>(w, m, facts, n - 1);
        let before = listing::changes_of::<S>(m, facts, n - 1)->Ok_0;
        let e = m.entries[n - 1];
        let f = facts[n - 1];
        let now = restore::file_in(w, e.path);
        let git = listing::uses_git::<S>(m);
        law_which_paths_are_recorded(e.path);
        if e.expected is Some {
            S::lemma_names(f.sight, e.path, now, e.expected->Some_0, git, f.expected);
        }
        S::lemma_names(f.sight, e.path, now, e.original, git, f.original);
        let shown = listing::shown_change::<S>(e, git, f, false);
        assert(shown is Ok);
        assert forall|c: ChangeModel| #[trigger] found->Ok_0.contains(c) <==> exists|i: int|
            0 <= i < n && entry_is_change(w, #[trigger] m.entries[i], c) by {
            assert(before.contains(c) <==> exists|i: int|
                0 <= i < n - 1 && entry_is_change(w, #[trigger] m.entries[i], c));
            match shown->Ok_0 {
                None => {
                    assert(!entry_is_change(w, e, c));
                },
                Some(kind) => {
                    let new = ChangeModel { path: e.path, change_type: sight::change_name(kind) };
                    assert(found->Ok_0 == before.push(new));
                    assert(entry_is_change(w, e, c) <==> c == new);
                    if before.contains(c) {
                        let k = choose|k: int| 0 <= k < before.len() && before[k] == c;
                        assert(before.push(new)[k] == c);
                    }
                    if c == new {
                        assert(before.push(new)[before.len() as int] == c);
                    }
                    if before.push(new).contains(c) && c != new {
                        let k = choose|k: int|
                            0 <= k < before.push(new).len() && before.push(new)[k] == c;
                        assert(before[k] == c);
                    }
                },
            }
            if entry_is_change(w, e, c) {
                assert(entry_is_change(w, m.entries[n - 1], c));
            }
        }
    }
}

/// The list of changes can always be made where nothing of Git is needed. It
/// names exactly the files that differ from what they were first and still
/// are what the recorded change left, each as added, deleted or modified, in
/// the order of their paths.
pub proof fn law_changes_are_listed<S: Sight>(
    w: World,
    m: ManifestModel,
    facts: Seq<FactsModel<S::V>>,
)
    requires
        restore::facts_are_of::<S>(w, m, facts),
        needs_no_git(m.entries),
        all_kept(w, m.entries),
    ensures
        listing::change_list::<S>(m, facts) is Ok,
        forall|c: ChangeModel| #[trigger]
            listing::change_list::<S>(m, facts)->Ok_0.contains(c) <==> exists|i: int|
                0 <= i < m.entries.len() && entry_is_change(w, #[trigger] m.entries[i], c),
        forall|i: int, j: int|
            0 <= i < j < listing::change_list::<S>(m, facts)->Ok_0.len() ==> !order::before(
                (#[trigger] listing::change_list::<S>(m, facts)->Ok_0[j]).path,
                (#[trigger] listing::change_list::<S>(m, facts)->Ok_0[i]).path,
            ),
{
    let n = m.entries.len() as int;
    lemma_changes::<S>(w, m, facts, n);
    let found = listing::changes_of::<S>(m, facts, n)->Ok_0;
    let le = listing::changes_by_path();
    assert(order::is_order(le)) by {
        assert forall|a: ChangeModel, b: ChangeModel| #[trigger] le(a, b) || le(b, a) by {
            order::lemma_before_total(a.path, b.path);
        }
        assert forall|a: ChangeModel, b: ChangeModel, c: ChangeModel| #[trigger]
            le(a, b) && #[trigger] le(b, c) implies le(a, c) by {
            order::lemma_not_after_transitive(a.path, b.path, c.path);
        }
    }
    order::lemma_sorted(found, le);
    rows::lemma_same_values(order::sorted(found, le), found);
    let shown = listing::change_list::<S>(m, facts)->Ok_0;
    assert forall|i: int, j: int| 0 <= i < j < shown.len() implies !order::before(
        (#[trigger] shown[j]).path,
        (#[trigger] shown[i]).path,
    ) by {
        assert(le(shown[i], shown[j]));
    }
}

// ---------------------------------------------------------------------
// What a command changed
// ---------------------------------------------------------------------

/// Whether a file was left alone between two looks: it is a file, its time
/// and size are those from before, or it holds the content from before.
pub open spec fn looks_the_same(source: ListingSource, p: PendingModel, o: ObservedModel) -> bool {
    o.stat matches Some(s) && ((s.mtime_ms == p.mtime_ms && s.size == p.size) || (s.is_file && (
    source == ListingSource::Remote ==> s.size == p.size) && p.object_id is Some && o.state == Some(
        StateReplyModel::Is(StateModel::Object { object_id: p.object_id->Some_0 }),
    )))
}

/// What a command changed is recorded, once it is told what the file holds
/// now: a file whose content was kept before gets an entry with that content
/// and the new state, exactly where it was touched and holds something else
/// or is gone.
pub proof fn law_change_of_a_kept_file_is_recorded(
    c: CaptureModel,
    has_git: bool,
    entries: Seq<EntryModel>,
    o: ObservedModel,
    p: PendingModel,
    now: StateModel,
)
    requires
        o.path.len() > 0,
        !leads_through_heavy(o.path),
        after::state_before(c.before_states, o.path) == Some(p),
        !p.skipped,
        c.source == ListingSource::Git || !p.under_git,
        p.object_id is Some,
        o.state == Some(StateReplyModel::Is(now)),
        forall|i: int| 0 <= i < entries.len() ==> (#[trigger] entries[i]).path != o.path,
    ensures
        ({
            let r = after::recorded_all(c, has_git, entries, seq![o], 1);
            if looks_the_same(c.source, p, o) {
                &&& r.end == RecordEndModel::Done { changed: false }
                &&& r.entries == entries
            } else {
                &&& r.end == RecordEndModel::Done { changed: true }
                &&& r.entries == entries.push(
                    EntryModel {
                        path: o.path,
                        original: StateModel::Object { object_id: p.object_id->Some_0 },
                        expected: Some(now),
                    },
                )
            }
        }),
{
    law_which_paths_are_recorded(o.path);
    manifest::lemma_entry_index(entries, o.path);
    reveal_with_fuel(after::recorded_all, 2);
    assert(seq![o][0] == o);
}

/// A file that a command made is recorded as one that was missing, and what
/// is no file is not recorded.
pub proof fn law_new_file_is_recorded(
    c: CaptureModel,
    has_git: bool,
    entries: Seq<EntryModel>,
    o: ObservedModel,
    stat: NodeStat,
    now: StateModel,
)
    requires
        o.path.len() > 0,
        !leads_through_heavy(o.path),
        after::state_before(c.before_states, o.path) is None,
        !o.in_diff,
        o.stat == Some(stat),
        o.state == Some(StateReplyModel::Is(now)),
        forall|i: int| 0 <= i < entries.len() ==> (#[trigger] entries[i]).path != o.path,
    ensures
        after::recorded_all(c, has_git, entries, seq![o], 1).entries == (if stat.is_file {
            entries.push(
                EntryModel { path: o.path, original: StateModel::Missing, expected: Some(now) },
            )
        } else {
            entries
        }),
{
    law_which_paths_are_recorded(o.path);
    manifest::lemma_entry_index(entries, o.path);
    reveal_with_fuel(after::recorded_all, 2);
    assert(seq![o][0] == o);
}

/// A file that the commit of the baseline holds, and that a command deleted,
/// is recorded as one that Git gives back; one that was only changed, and of
/// which nothing was kept, is not recorded.
pub proof fn law_committed_file_is_recorded(
    c: CaptureModel,
    has_git: bool,
    entries: Seq<EntryModel>,
    o: ObservedModel,
    now: StateModel,
)
    requires
        o.path.len() > 0,
        !leads_through_heavy(o.path),
        after::state_before(c.before_states, o.path) is None,
        o.in_diff,
        o.state == Some(StateReplyModel::Is(now)),
        forall|i: int| 0 <= i < entries.len() ==> (#[trigger] entries[i]).path != o.path,
    ensures
        after::recorded_all(c, has_git, entries, seq![o], 1).entries == (if o.stat is None {
            entries.push(
                EntryModel { path: o.path, original: StateModel::Git, expected: Some(now) },
            )
        } else {
            entries
        }),
{
    law_which_paths_are_recorded(o.path);
    manifest::lemma_entry_index(entries, o.path);
    reveal_with_fuel(after::recorded_all, 2);
    assert(seq![o][0] == o);
}

// ---------------------------------------------------------------------
// The walk
// ---------------------------------------------------------------------

/// Whether an entry of a directory is one that a walk looks at: no link, not
/// ignored, and not in a directory of tools.
pub open spec fn is_wanted(e: WalkEntryModel) -> bool {
    !e.is_symlink && !e.ignored && !leads_through_heavy(e.path)
}

/// A walk finds the files of the directories that it reads, and reads the
/// directories below them: all but links, ignored entries and what lies in a
/// directory of tools.
pub proof fn law_walk_finds_the_files(w: WalkModel, entries: Seq<WalkEntryModel>, path: Seq<char>)
    ensures
        walk::visited(w, entries).paths.contains(path) <==> w.paths.contains(path) || exists|i: int|
            0 <= i < entries.len() && (#[trigger] entries[i]).path == path && entries[i].is_file
                && !entries[i].is_dir && is_wanted(entries[i]),
        walk::visited(w, entries).directories.contains(path) <==> w.directories.contains(path)
            || exists|i: int|
            0 <= i < entries.len() && (#[trigger] entries[i]).path == path && entries[i].is_dir
                && is_wanted(entries[i]),
{
    law_which_paths_are_recorded(path);
    rows::lemma_filter_map_contains(entries, walk::found(), path);
    rows::lemma_filter_map_contains(entries, walk::entered(), path);
    rows::lemma_concat_contains(w.paths, entries.filter_map(walk::found()), path);
    rows::lemma_concat_contains(w.directories, entries.filter_map(walk::entered()), path);
    if entries.filter_map(walk::found()).contains(path) {
        let i = choose|i: int|
            0 <= i < entries.len() && (walk::found())(#[trigger] entries[i]) == Some(path);
        assert(entries[i].path == path);
    }
    if entries.filter_map(walk::entered()).contains(path) {
        let i = choose|i: int|
            0 <= i < entries.len() && (walk::entered())(#[trigger] entries[i]) == Some(path);
        assert(entries[i].path == path);
    }
    if exists|i: int|
        0 <= i < entries.len() && (#[trigger] entries[i]).path == path && entries[i].is_file
            && !entries[i].is_dir && is_wanted(entries[i]) {
        let i = choose|i: int|
            0 <= i < entries.len() && (#[trigger] entries[i]).path == path && entries[i].is_file
                && !entries[i].is_dir && is_wanted(entries[i]);
        assert((walk::found())(entries[i]) == Some(path));
    }
    if exists|i: int|
        0 <= i < entries.len() && (#[trigger] entries[i]).path == path && entries[i].is_dir
            && is_wanted(entries[i]) {
        let i = choose|i: int|
            0 <= i < entries.len() && (#[trigger] entries[i]).path == path && entries[i].is_dir
                && is_wanted(entries[i]);
        assert((walk::entered())(entries[i]) == Some(path));
    }
}

} // verus!
