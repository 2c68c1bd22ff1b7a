//! Finding the files of a working directory.

use vstd::prelude::*;
use crate::checkpoint::paths;
use crate::checkpoint::paths::should_skip_relative;
use crate::rows::select_rows;

verus! {

/// An entry of a directory: its path from the working directory, what it
/// is, and whether the ignore rules leave it out.
pub struct WalkEntry {
    pub path: String,
    pub is_symlink: bool,
    pub is_dir: bool,
    pub is_file: bool,
    pub ignored: bool,
}

/// The mathematical form of an entry.
pub struct WalkEntryModel {
    pub path: Seq<char>,
    pub is_symlink: bool,
    pub is_dir: bool,
    pub is_file: bool,
    pub ignored: bool,
}

impl DeepView for WalkEntry {
    type V = WalkEntryModel;

    open spec fn deep_view(&self) -> WalkEntryModel {
        WalkEntryModel {
            path: self.path@,
            is_symlink: self.is_symlink,
            is_dir: self.is_dir,
            is_file: self.is_file,
            ignored: self.ignored,
        }
    }
}

/// A walk through a working directory: the directories that are still to be
/// read, and the files that were found.
pub struct WorktreeWalk {
    pub directories: Vec<String>,
    pub paths: Vec<String>,
}

/// The mathematical form of a walk.
pub struct WalkModel {
    pub directories: Seq<Seq<char>>,
    pub paths: Seq<Seq<char>>,
}

impl DeepView for WorktreeWalk {
    type V = WalkModel;

    open spec fn deep_view(&self) -> WalkModel {
        WalkModel { directories: self.directories.deep_view(), paths: self.paths.deep_view() }
    }
}

/// Whether an entry is looked at.
pub open spec fn looked_at(e: WalkEntryModel) -> bool {
    !paths::skips(e.path) && !e.is_symlink && !e.ignored
}

/// Whether an entry is looked at.
fn is_looked_at(e: &WalkEntry) -> (r: bool)
    ensures
        r == looked_at(e.deep_view()),
{
    !should_skip_relative(e.path.as_str()) && !e.is_symlink && !e.ignored
}

/// The path of an entry that is to be read later.
pub open spec fn entered() -> spec_fn(WalkEntryModel) -> Option<Seq<char>> {
    |e: WalkEntryModel|
        if looked_at(e) && e.is_dir {
            Some(e.path)
        } else {
            None
        }
}

/// The path of an entry that is a file.
pub open spec fn found() -> spec_fn(WalkEntryModel) -> Option<Seq<char>> {
    |e: WalkEntryModel|
        if looked_at(e) && !e.is_dir && e.is_file {
            Some(e.path)
        } else {
            None
        }
}

/// A walk after the entries of a directory were read.
pub open spec fn visited(w: WalkModel, entries: Seq<WalkEntryModel>) -> WalkModel {
    WalkModel {
        directories: w.directories + entries.filter_map(entered()),
        paths: w.paths + entries.filter_map(found()),
    }
}

/// Moves paths to the end of a list.
fn move_all(out: &mut Vec<String>, more: Vec<String>)
    ensures
        final(out).deep_view() == old(out).deep_view() + more.deep_view(),
{
    let ghost before = out@;
    let ghost shown = out.deep_view();
    let ghost added = more@;
    let ghost more_view = more.deep_view();
    let mut more = more;
    out.append(&mut more);
    proof {
        assert(out@ =~= before + added);
        assert(out.deep_view() =~= shown + more_view);
    }
}

impl WorktreeWalk {
    /// A walk that begins at the working directory.
    pub fn start() -> (w: WorktreeWalk)
        ensures
            w.deep_view() == (WalkModel {
                directories: seq![Seq::<char>::empty()],
                paths: Seq::empty(),
            }),
    {
        let top = String::new();
        let mut directories: Vec<String> = Vec::new();
        directories.push(top);
        let w = WorktreeWalk { directories, paths: Vec::new() };
        proof {
            assert(top@ =~= Seq::<char>::empty());
            assert(w.directories.deep_view() =~= seq![Seq::<char>::empty()]);
            assert(w.paths.deep_view() =~= Seq::empty());
        }
        w
    }

    /// The directory to read next: the one that was found last.
    pub fn next_directory(&mut self) -> (r: Option<String>)
        ensures
            final(self).deep_view().paths == old(self).deep_view().paths,
            match r {
                Some(d) => final(self).deep_view().directories.push(d@)
                    == old(self).deep_view().directories,
                None => old(self).deep_view().directories.len() == 0 && final(self).deep_view()
                    == old(self).deep_view(),
            },
    {
        let ghost before = self.directories@;
        let ghost shown = self.directories.deep_view();
        let r = self.directories.pop();
        proof {
            if before.len() > 0 {
                assert(self.directories@ =~= before.drop_last());
                assert(shown =~= self.directories.deep_view().push(before.last()@));
            } else {
                assert(self.directories@ =~= before);
            }
        }
        r
    }

    /// Takes the entries of a directory: files are found, directories are
    /// read later, and links, ignored entries and directories that are
    /// never recorded are left out.
    pub fn collect_worktree_file_paths(&mut self, entries: &Vec<WalkEntry>)
        ensures
            final(self).deep_view() == visited(old(self).deep_view(), entries.deep_view()),
    {
        let enter = |e: &WalkEntry| -> (r: Option<String>)
            ensures
                r.deep_view() == entered()(e.deep_view()),
            {
                if is_looked_at(e) && e.is_dir {
                    Some(e.path.clone())
                } else {
                    None
                }
            };
        let find = |e: &WalkEntry| -> (r: Option<String>)
            ensures
                r.deep_view() == found()(e.deep_view()),
            {
                if is_looked_at(e) && !e.is_dir && e.is_file {
                    Some(e.path.clone())
                } else {
                    None
                }
            };
        let deeper = select_rows(entries, enter, Ghost(entered()));
        let files = select_rows(entries, find, Ghost(found()));
        move_all(&mut self.directories, deeper);
        move_all(&mut self.paths, files);
    }
}

/// Whether a walk has met no directory that is never recorded.
pub open spec fn is_clean(w: WalkModel) -> bool {
    &&& forall|i: int| 0 <= i < w.paths.len() ==> !paths::skips(#[trigger] w.paths[i])
    &&& forall|i: int| 0 <= i < w.directories.len() ==> !paths::skips(#[trigger] w.directories[i])
}

/// A walk never finds a file in a directory that is never recorded, nor
/// enters one.
pub proof fn law_walk_stays_clean(w: WalkModel, entries: Seq<WalkEntryModel>)
    requires
        is_clean(w),
    ensures
        is_clean(visited(w, entries)),
{
    let deeper = entries.filter_map(entered());
    let files = entries.filter_map(found());
    assert forall|i: int| 0 <= i < deeper.len() implies !paths::skips(#[trigger] deeper[i]) by {
        lemma_filter_map_from(entries, entered(), i);
    }
    assert forall|i: int| 0 <= i < files.len() implies !paths::skips(#[trigger] files[i]) by {
        lemma_filter_map_from(entries, found(), i);
    }
}

/// Every value that was chosen comes from one of the list.
proof fn lemma_filter_map_from<A, B>(s: Seq<A>, f: spec_fn(A) -> Option<B>, i: int)
    requires
        0 <= i < s.filter_map(f).len(),
    ensures
        exists|k: int| 0 <= k < s.len() && f(#[trigger] s[k]) == Some(s.filter_map(f)[i]),
    decreases s.len(),
{
    reveal_with_fuel(Seq::filter_map, 2);
    if s.len() > 0 {
        let front = s.drop_last();
        if i < front.filter_map(f).len() {
            lemma_filter_map_from(front, f, i);
            let k = choose|k: int|
                0 <= k < front.len() && f(#[trigger] front[k]) == Some(front.filter_map(f)[i]);
            assert(s[k] == front[k]);
        } else {
            assert(f(s[s.len() - 1]) == Some(s.filter_map(f)[i]));
        }
    }
}

} // verus!
