//! What is shown of the changes of a checkpoint, what is remembered of it,
//! and which directories go when files do.

use vstd::prelude::*;
use crate::checkpoint::content;
use crate::checkpoint::laws::{
    all_kept, held, is_marked, law_which_paths_are_recorded, leads_through_heavy, needs_no_git,
};
use crate::checkpoint::listing;
use crate::checkpoint::listing::{CachedModel, DiffModel};
use crate::checkpoint::manifest;
use crate::checkpoint::manifest::{BaselineModel, EntryModel, ManifestModel, StateModel};
use crate::checkpoint::restore;
use crate::checkpoint::restore::{ActionModel, World};
use crate::checkpoint::sight;
use crate::checkpoint::sight::{FactsModel, FileStat, Sight, StoredModel};
use crate::error::ErrorModel;
use crate::order;
use crate::rows;
use crate::text;

verus! {

/// Whether a diff shows what became of the file of an entry: the file
/// differs from what it was first and, unless all is to be shown, still is
/// what the recorded change left.
pub open spec fn entry_is_diff(w: World, e: EntryModel, show_all: bool, d: DiffModel) -> bool {
    let now = restore::file_in(w, e.path);
    let diff = content::file_diff(e.path, held(w, e.original), now);
    &&& e.path == d.path
    &&& is_marked(e.path) || !leads_through_heavy(e.path)
    &&& e.expected is Some
    &&& show_all || now == held(w, e.expected->Some_0)
    &&& now != held(w, e.original)
    &&& d.change_type == (if held(w, e.original) is None {
        "added"@
    } else if now is None {
        "deleted"@
    } else {
        "modified"@
    })
    &&& d.content == diff.0
    &&& d.is_binary == diff.1
}

proof fn lemma_entry_diff<S: Sight>(
    id: Seq<char>,
    w: World,
    m: ManifestModel,
    facts: Seq<FactsModel<S::V>>,
    show_all: bool,
    cache: Seq<CachedModel>,
    i: int,
)
    requires
        restore::facts_are_of::<S>(w, m, facts),
        needs_no_git(m.entries),
        all_kept(w, m.entries),
        manifest::paths_differ(m.entries),
        listing::is_truthful::<S>(id, m, facts, cache),
        0 <= i < m.entries.len(),
    ensures
        ({
            let e = m.entries[i];
            let shown = listing::shown_change::<S>(e, listing::uses_git::<S>(m), facts[i], show_all);
            let built = listing::built_diff::<S>(id, m, e, facts[i], cache);
            &&& shown is Ok
            &&& built is Ok
            &&& listing::is_truthful::<S>(id, m, facts, built->Ok_0.0)
            &&& shown->Ok_0 is None ==> forall|d: DiffModel| !#[trigger] entry_is_diff(
                w,
                e,
                show_all,
                d,
            )
            &&& shown->Ok_0 is Some ==> forall|d: DiffModel| #[trigger]
                entry_is_diff(w, e, show_all, d) <==> d == (DiffModel {
                    path: e.path,
                    change_type: sight::change_name(shown->Ok_0->0),
                    content: built->Ok_0.1,
                    is_binary: built->Ok_0.2,
                })
        }),
{
    let e = m.entries[i];
    let f = facts[i];
    let now = restore::file_in(w, e.path);
    let git = listing::uses_git::<S>(m);
    law_which_paths_are_recorded(e.path);
    if e.expected is Some {
        S::lemma_names(f.sight, e.path, now, e.expected->Some_0, git, f.expected);
    }
    S::lemma_names(f.sight, e.path, now, e.original, git, f.original);
    S::lemma_shows(f.sight, e.path, now);
    listing::lemma_built_truthfully::<S>(id, m, facts, cache, i);
    assert(sight::original_content(e.original, m.git is Some, f.original) == Ok::<
        Option<Seq<u8>>,
        ErrorModel,
    >(held(w, e.original)));
}

proof fn lemma_diffs<S: Sight>(
    id: Seq<char>,
    w: World,
    m: ManifestModel,
    facts: Seq<FactsModel<S::V>>,
    show_all: bool,
    cache: Seq<CachedModel>,
    n: int,
)
    requires
        restore::facts_are_of::<S>(w, m, facts),
        needs_no_git(m.entries),
        all_kept(w, m.entries),
        manifest::paths_differ(m.entries),
        listing::is_truthful::<S>(id, m, facts, cache),
        0 <= n <= m.entries.len(),
    ensures
        ({
            let all = listing::diffs_of::<S>(id, m, facts, show_all, cache, n);
            &&& all.diffs is Ok
            &&& listing::is_truthful::<S>(id, m, facts, all.cache)
            &&& forall|d: DiffModel| #[trigger]
                all.diffs->Ok_0.contains(d) <==> exists|i: int|
                    0 <= i < n && entry_is_diff(w, #[trigger] m.entries[i], show_all, d)
        }),
    decreases n,
{
    let all = listing::diffs_of::<S>(id, m, facts, show_all, cache, n);
    if n <= 0 {
        assert forall|d: DiffModel| !(#[trigger] all.diffs->Ok_0.contains(d)) by {}
    } else {
        lemma_diffs::<S>(id, w, m, facts, show_all, cache, n - 1);
        let before = listing::diffs_of::<S>(id, m, facts, show_all, cache, n - 1);
        let found = before.diffs->Ok_0;
        lemma_entry_diff::<S>(id, w, m, facts, show_all, before.cache, n - 1);
        let e = m.entries[n - 1];
        let shown = listing::shown_change::<S>(
            e,
            listing::uses_git::<S>(m),
            facts[n - 1],
            show_all,
        );
        assert forall|d: DiffModel| #[trigger] all.diffs->Ok_0.contains(d) <==> exists|i: int|
            0 <= i < n && entry_is_diff(w, #[trigger] m.entries[i], show_all, d) by {
            assert(found.contains(d) <==> exists|i: int|
                0 <= i < n - 1 && entry_is_diff(w, #[trigger] m.entries[i], show_all, d));
            if shown->Ok_0 is Some {
                let new = all.diffs->Ok_0.last();
                assert(all.diffs->Ok_0 == found.push(new));
                assert(entry_is_diff(w, e, show_all, d) <==> d == new);
                assert(found.push(new) =~= found + seq![new]);
                rows::lemma_concat_contains(found, seq![new], d);
                assert(seq![new].contains(d) <==> d == new) by {
                    assert(seq![new][0] == new);
                }
            } else {
                assert(!entry_is_diff(w, e, show_all, d));
            }
            if entry_is_diff(w, e, show_all, d) {
                assert(entry_is_diff(w, m.entries[n - 1], show_all, d));
            }
        }
    }
}

/// The diffs of a checkpoint can always be shown where nothing of Git is
/// needed, whatever was remembered truthfully. They show exactly the files
/// that differ from what they were first and still are what the recorded
/// change left, or all that differ where that is asked for: each with its
/// kind of change and the difference of what it held and holds.
pub proof fn law_diffs_are_shown<S: Sight>(
    id: Seq<char>,
    w: World,
    m: ManifestModel,
    facts: Seq<FactsModel<S::V>>,
    show_all: bool,
    cache: Seq<CachedModel>,
)
    requires
        restore::facts_are_of::<S>(w, m, facts),
        needs_no_git(m.entries),
        all_kept(w, m.entries),
        manifest::paths_differ(m.entries),
        listing::is_truthful::<S>(id, m, facts, cache),
    ensures
        ({
            let shown = listing::diff_list::<S>(id, m, facts, show_all, cache).diffs;
            &&& shown is Ok
            &&& forall|d: DiffModel| #[trigger]
                shown->Ok_0.contains(d) <==> exists|i: int|
                    0 <= i < m.entries.len() && entry_is_diff(
                        w,
                        #[trigger] m.entries[i],
                        show_all,
                        d,
                    )
            &&& forall|i: int, j: int|
                0 <= i < j < shown->Ok_0.len() ==> !order::before(
                    (#[trigger] shown->Ok_0[j]).path,
                    (#[trigger] shown->Ok_0[i]).path,
                )
        }),
{
    let n = m.entries.len() as int;
    lemma_diffs::<S>(id, w, m, facts, show_all, cache, n);
    let found = listing::diffs_of::<S>(id, m, facts, show_all, cache, n).diffs->Ok_0;
    let le = listing::diffs_by_path();
    assert(order::is_order(le)) by {
        assert forall|a: DiffModel, b: DiffModel| #[trigger] le(a, b) || le(b, a) by {
            order::lemma_before_total(a.path, b.path);
        }
        assert forall|a: DiffModel, b: DiffModel, c: DiffModel| #[trigger]
            le(a, b) && #[trigger] le(b, c) implies le(a, c) by {
            order::lemma_not_after_transitive(a.path, b.path, c.path);
        }
    }
    order::lemma_sorted(found, le);
    rows::lemma_same_values(order::sorted(found, le), found);
    let shown = listing::diff_list::<S>(id, m, facts, show_all, cache).diffs->Ok_0;
    assert forall|i: int, j: int| 0 <= i < j < shown.len() implies !order::before(
        (#[trigger] shown[j]).path,
        (#[trigger] shown[i]).path,
    ) by {
        assert(le(shown[i], shown[j]));
    }
}

/// Without anything remembered all that is remembered is true.
pub proof fn law_nothing_remembered_is_true<S: Sight>(
    id: Seq<char>,
    m: ManifestModel,
    facts: Seq<FactsModel<S::V>>,
)
    ensures
        listing::is_truthful::<S>(id, m, facts, Seq::empty()),
{
}

// ---------------------------------------------------------------------
// What is remembered
// ---------------------------------------------------------------------

/// A remembered diff is used only for the same file of the same checkpoint,
/// with the same original, time and size.
pub proof fn law_what_is_recalled(
    diffs: Seq<CachedModel>,
    key: Seq<char>,
    digest: Seq<char>,
    stat: Option<FileStat>,
)
    ensures
        ({
            let r = listing::remembered(diffs, key, digest, stat);
            &&& stat is None ==> r is None
            &&& r is Some ==> diffs.contains(r->0) && r->0.key == key && r->0.original_digest
                == digest && r->0.current_mtime_ms == stat->0.mtime_ms && r->0.current_size
                == stat->0.size
        }),
{
    listing::lemma_key_index(diffs, key);
    match listing::key_index(diffs, key) {
        Some(i) => {
            assert(diffs.contains(diffs[i]));
        },
        None => {},
    }
}

/// The original of a file is told by what it was: nothing, a kept content,
/// or the commit and the path. So a file that was nothing, one that was
/// kept, and one of a commit are never taken for each other.
pub proof fn law_originals_are_told_apart(
    a: Seq<char>,
    b: Seq<char>,
    git: Option<BaselineModel>,
    path: Seq<char>,
)
    ensures
        ({
            let digest = |s: StateModel| listing::digest_of(s, git, path);
            &&& digest(StateModel::Missing) != digest(StateModel::Object { object_id: a })
            &&& digest(StateModel::Missing) != digest(StateModel::Git)
            &&& digest(StateModel::Git) != digest(StateModel::Object { object_id: a })
            &&& a != b ==> digest(StateModel::Object { object_id: a }) != digest(
                StateModel::Object { object_id: b },
            )
        }),
{
    let object = |id: Seq<char>| listing::digest_of(StateModel::Object { object_id: id }, git, path);
    let none = listing::digest_of(StateModel::Missing, git, path);
    let commit = listing::digest_of(StateModel::Git, git, path);
    reveal_strlit("missing");
    reveal_strlit("obj:");
    reveal_strlit("git:");
    assert(none[0] == 'm');
    assert(object(a)[0] == 'o');
    assert(commit[0] == 'g');
    if a != b && object(a) == object(b) {
        assert(object(a).skip(4) =~= a);
        assert(object(b).skip(4) =~= b);
    }
}

/// Two commits, and two paths of one commit, are told apart where the commits
/// are named without colons.
pub proof fn law_commits_are_told_apart(
    one: BaselineModel,
    other: BaselineModel,
    path: Seq<char>,
    second: Seq<char>,
)
    requires
        one.head.len() == other.head.len(),
        one.head != other.head || path != second,
    ensures
        listing::digest_of(StateModel::Git, Some(one), path) != listing::digest_of(
            StateModel::Git,
            Some(other),
            second,
        ),
{
    let a = listing::digest_of(StateModel::Git, Some(one), path);
    let b = listing::digest_of(StateModel::Git, Some(other), second);
    reveal_strlit("git:");
    reveal_strlit(":");
    let n = one.head.len() as int;
    assert(a.subrange(4, 4 + n) =~= one.head);
    assert(b.subrange(4, 4 + n) =~= other.head);
    assert(a.skip(5 + n) =~= path);
    assert(b.skip(5 + n) =~= second);
}

/// Remembering a diff makes it the one of its key and leaves the others, as
/// long as there are fewer than two thousand and forty-eight.
pub proof fn law_what_is_remembered(diffs: Seq<CachedModel>, d: CachedModel, i: int)
    requires
        diffs.len() < 2048,
    ensures
        ({
            let after = listing::remembering(diffs, d);
            &&& after.contains(d)
            &&& 0 <= i < diffs.len() && diffs[i].key != d.key ==> after[i] == diffs[i]
            &&& after.len() <= diffs.len() + 1
        }),
{
    listing::lemma_key_index(diffs, d.key);
    let after = listing::remembering(diffs, d);
    match listing::key_index(diffs, d.key) {
        Some(k) => {
            assert(after[k] == d);
        },
        None => {
            assert(after[diffs.len() as int] == d);
        },
    }
}

/// What was remembered of checkpoints is forgotten with them, and nothing
/// else is: a diff goes exactly where its key begins with one of them and a
/// colon.
pub proof fn law_what_is_forgotten(
    diffs: Seq<CachedModel>,
    ids: Seq<Seq<char>>,
    d: CachedModel,
    id: Seq<char>,
    path: Seq<char>,
)
    ensures
        listing::forgetting(diffs, ids).contains(d) <==> diffs.contains(d) && forall|i: int|
            0 <= i < ids.len() ==> !text::begins(d.key, #[trigger] ids[i] + seq![':']),
        listing::cache_key(id, path) == id + seq![':'] + path,
        ids.contains(id) ==> listing::belongs(listing::cache_key(id, path), ids),
{
    let p = |x: CachedModel| !listing::belongs(x.key, ids);
    let kept = diffs.filter(p);
    reveal_strlit(":");
    assert(":"@ =~= seq![':']);
    if kept.contains(d) {
        diffs.lemma_filter_contains_rev(p, d);
        let k = choose|k: int| 0 <= k < kept.len() && kept[k] == d;
        diffs.lemma_filter_pred(p, k);
        assert forall|i: int| 0 <= i < ids.len() implies !text::begins(
            d.key,
            #[trigger] ids[i] + seq![':'],
        ) by {
            assert(!text::begins(d.key, ids[i] + ":"@));
        }
    }
    if diffs.contains(d) && (forall|i: int|
        0 <= i < ids.len() ==> !text::begins(d.key, #[trigger] ids[i] + seq![':'])) {
        if listing::belongs(d.key, ids) {
            let i = choose|i: int|
                0 <= i < ids.len() && text::begins(d.key, #[trigger] ids[i] + ":"@);
            assert(!text::begins(d.key, ids[i] + seq![':']));
        }
        let k = choose|k: int| 0 <= k < diffs.len() && diffs[k] == d;
        diffs.lemma_filter_contains(p, k);
    }
    let key = listing::cache_key(id, path);
    if ids.contains(id) {
        let i = choose|i: int| 0 <= i < ids.len() && ids[i] == id;
        let front = ids[i] + ":"@;
        assert(key.take(front.len() as int) =~= front);
        assert(text::begins(key, ids[i] + ":"@));
    }
}

// ---------------------------------------------------------------------
// Going back
// ---------------------------------------------------------------------

/// A file is put back as what it was: taken away where there was none,
/// copied from what was kept, or written as the commit has it. Where the
/// commit is not known, or has no such file, that is a failure, and nothing
/// is taken away for it.
pub proof fn law_what_puts_a_file_back(
    path: Seq<char>,
    id: Seq<char>,
    bytes: Seq<u8>,
    stored: StoredModel,
    has_git: bool,
    e: ErrorModel,
)
    ensures
        restore::action_for(path, StateModel::Missing, has_git, stored) == Ok::<
            ActionModel,
            ErrorModel,
        >(ActionModel::Remove),
        restore::action_for(path, StateModel::Object { object_id: id }, has_git, stored) == Ok::<
            ActionModel,
            ErrorModel,
        >(ActionModel::CopyObject { object_id: id }),
        restore::action_for(path, StateModel::Git, true, StoredModel::Content(bytes)) == Ok::<
            ActionModel,
            ErrorModel,
        >(ActionModel::Write { content: bytes }),
        restore::action_for(path, StateModel::Git, true, StoredModel::Failed(e)) == Err::<
            ActionModel,
            ErrorModel,
        >(e),
        restore::action_for(path, StateModel::Git, true, StoredModel::Absent) is Err,
        restore::action_for(path, StateModel::Git, false, stored) is Err,
{
}

/// The directory of a path is what stands before its last slash; a path
/// without one, or with nothing before it, has none.
pub proof fn law_directories_of_files(above: Seq<char>, name: Seq<char>)
    requires
        !name.contains('/'),
    ensures
        above.len() > 0 ==> restore::parent_path(above + seq!['/'] + name) == Some(above),
        restore::parent_path(seq!['/'] + name) is None,
        restore::parent_path(name) is None,
{
    lemma_last_slash(above + seq!['/'], name);
    lemma_last_slash(seq!['/'], name);
    lemma_last_slash(Seq::empty(), name);
    assert((above + seq!['/'] + name).take(above.len() as int) =~= above);
    assert(Seq::<char>::empty() + name =~= name);
}

proof fn lemma_last_slash(front: Seq<char>, name: Seq<char>)
    requires
        !name.contains('/'),
        front.len() == 0 || front.last() == '/',
    ensures
        restore::last_slash(front + name) == (if front.len() == 0 {
            None
        } else {
            Some(front.len() - 1)
        }),
    decreases name.len(),
{
    let s = front + name;
    if name.len() == 0 {
        assert(s =~= front);
    } else {
        assert(s.last() == name[name.len() - 1]);
        assert(name.contains(name[name.len() - 1]));
        assert(s.drop_last() =~= front + name.drop_last());
        assert(!name.drop_last().contains('/')) by {
            if name.drop_last().contains('/') {
                let k = choose|k: int|
                    0 <= k < name.drop_last().len() && name.drop_last()[k] == '/';
                assert(name[k] == '/');
            }
        }
        lemma_last_slash(front, name.drop_last());
    }
}

/// The directories that may have become empty are those of the files that
/// were put back, the deeper before the less deep.
pub proof fn law_directories_to_look_at(restored: Seq<Seq<char>>, dir: Seq<char>, i: int, j: int)
    ensures
        ({
            let dirs = restore::directories_of(restored);
            &&& dirs.contains(dir) <==> exists|k: int|
                0 <= k < restored.len() && restore::parent_path(#[trigger] restored[k]) == Some(
                    dir,
                )
            &&& 0 <= i < j < dirs.len() ==> restore::slashes(dirs[i]) >= restore::slashes(dirs[j])
        }),
{
    let f = |p: Seq<char>| restore::parent_path(p);
    let all = restored.filter_map(f);
    let le = restore::deepest_first();
    let sorted = order::sorted(all, le);
    assert(order::is_order(le));
    order::lemma_sorted(all, le);
    rows::lemma_same_values(sorted, all);
    rows::lemma_filter_map_contains(restored, f, dir);
    lemma_without_repeats(sorted, dir);
    if exists|k: int| 0 <= k < restored.len() && f(#[trigger] restored[k]) == Some(dir) {
        let k = choose|k: int| 0 <= k < restored.len() && f(#[trigger] restored[k]) == Some(dir);
        assert(restore::parent_path(restored[k]) == Some(dir));
    }
    if exists|k: int|
        0 <= k < restored.len() && restore::parent_path(#[trigger] restored[k]) == Some(dir) {
        let k = choose|k: int|
            0 <= k < restored.len() && restore::parent_path(#[trigger] restored[k]) == Some(dir);
        assert(f(restored[k]) == Some(dir));
    }
    let dirs = restore::directories_of(restored);
    if 0 <= i < j < dirs.len() {
        assert(le(dirs[i], dirs[j]));
    }
}

proof fn lemma_without_repeats(s: Seq<Seq<char>>, x: Seq<char>)
    requires
        order::ordered(s, restore::deepest_first()),
    ensures
        restore::without_repeats(s).contains(x) <==> s.contains(x),
        order::ordered(restore::without_repeats(s), restore::deepest_first()),
        s.len() > 0 ==> restore::without_repeats(s).len() > 0 && restore::without_repeats(s).last()
            == s.last(),
    decreases s.len(),
{
    let le = restore::deepest_first();
    let out = restore::without_repeats(s);
    if s.len() > 1 {
        let front = s.drop_last();
        assert(order::ordered(front, le)) by {
            assert forall|i: int, j: int| 0 <= i < j < front.len() implies le(
                #[trigger] front[i],
                #[trigger] front[j],
            ) by {
                assert(le(s[i], s[j]));
            }
        }
        lemma_without_repeats(front, x);
        let inner = restore::without_repeats(front);
        assert(s =~= front + seq![s.last()]);
        rows::lemma_concat_contains(front, seq![s.last()], x);
        assert(seq![s.last()].contains(x) <==> x == s.last()) by {
            assert(seq![s.last()][0] == s.last());
        }
        assert(front.last() == s[s.len() - 2]);
        if s.last() == s[s.len() - 2] {
            assert(front.contains(front[front.len() - 1]));
        } else {
            assert(out =~= inner + seq![s.last()]);
            rows::lemma_concat_contains(inner, seq![s.last()], x);
            assert(le(s[s.len() - 2], s[s.len() - 1]));
            assert forall|i: int, j: int| 0 <= i < j < out.len() implies le(
                #[trigger] out[i],
                #[trigger] out[j],
            ) by {
                if j < inner.len() {
                    assert(le(inner[i], inner[j]));
                } else if i < inner.len() - 1 {
                    assert(le(inner[i], inner[inner.len() - 1]));
                }
            }
        }
    }
}

} // verus!
