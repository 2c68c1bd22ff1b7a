//! Finding the repositories below a directory.

use std::collections::VecDeque;
use vstd::prelude::*;
use crate::order;
use crate::order::Ranking;
use crate::text;

verus! {

/// A repository that was found.
pub struct GitRepoInfo {
    pub path: String,
    pub name: String,
    pub current_branch: String,
}

/// The mathematical form of a repository.
pub struct GitRepoModel {
    pub path: Seq<char>,
    pub name: Seq<char>,
    pub current_branch: Seq<char>,
}

impl DeepView for GitRepoInfo {
    type V = GitRepoModel;

    open spec fn deep_view(&self) -> GitRepoModel {
        GitRepoModel {
            path: self.path@,
            name: self.name@,
            current_branch: self.current_branch@,
        }
    }
}

/// What is known of an entry of a directory. `head` is what
/// `git rev-parse --abbrev-ref HEAD` printed in it, where it holds a
/// repository and the program could be run.
pub struct RepoEntry {
    pub path: String,
    pub name: Option<String>,
    pub has_git: bool,
    pub is_dir: bool,
    pub head: Option<String>,
}

/// The mathematical form of an entry.
pub struct RepoEntryModel {
    pub path: Seq<char>,
    pub name: Option<Seq<char>>,
    pub has_git: bool,
    pub is_dir: bool,
    pub head: Option<Seq<char>>,
}

impl DeepView for RepoEntry {
    type V = RepoEntryModel;

    open spec fn deep_view(&self) -> RepoEntryModel {
        RepoEntryModel {
            path: self.path@,
            name: self.name.deep_view(),
            has_git: self.has_git,
            is_dir: self.is_dir,
            head: self.head.deep_view(),
        }
    }
}

/// The branch that a repository is on. It is empty when no branch is
/// checked out, and when the program could not tell.
pub open spec fn branch_name(head: Option<Seq<char>>) -> Seq<char> {
    match head {
        Some(out) => if text::trimmed(out) == "HEAD"@ {
            Seq::empty()
        } else {
            text::trimmed(out)
        },
        None => Seq::empty(),
    }
}

/// Reads the branch that a repository is on.
pub fn get_current_branch_name(head: &Option<String>) -> (r: String)
    ensures
        r@ == branch_name(head.deep_view()),
{
    match head {
        Some(out) => {
            let chars = text::chars_of(out.as_str());
            let t = text::trim(chars.as_slice());
            if text::equals(t, "HEAD") {
                let none = String::new();
                proof {
                    assert(none@ =~= Seq::<char>::empty());
                }
                none
            } else {
                text::string_of(t)
            }
        },
        None => {
            let none = String::new();
            proof {
                assert(none@ =~= Seq::<char>::empty());
            }
            none
        },
    }
}

/// The names of directories that are never searched.
pub open spec fn skip_names() -> Seq<Seq<char>> {
    seq![
        ".git"@,
        "node_modules"@,
        "dist"@,
        "build"@,
        "out"@,
        "target"@,
        ".next"@,
        ".nuxt"@,
        ".cache"@,
        ".gradle"@,
        "__pycache__"@,
        ".venv"@,
        "venv"@,
        ".idea"@,
        ".vscode"@,
        "Pods"@,
        ".swiftpm"@,
        ".build"@,
    ]
}

/// Whether a text is one of a list.
pub(crate) fn is_one_of(name: &[char], list: &[&str]) -> (r: bool)
    ensures
        r == Seq::new(list@.len(), |i: int| list@[i]@).contains(name@),
{
    let ghost all = Seq::new(list@.len(), |i: int| list@[i]@);
    let mut i: usize = 0;
    while i < list.len()
        invariant
            i <= list@.len(),
            all == Seq::new(list@.len(), |i: int| list@[i]@),
            forall|j: int| 0 <= j < i ==> all[j] != name@,
        decreases list@.len() - i,
    {
        if text::equals(name, list[i]) {
            proof {
                assert(all[i as int] == name@);
            }
            return true;
        }
        i += 1;
    }
    false
}

/// Whether directories of this name are never searched.
pub fn is_skip_dir(name: &str) -> (r: bool)
    ensures
        r == skip_names().contains(name@),
{
    let chars = text::chars_of(name);
    let list: [&str; 18] = [
        ".git",
        "node_modules",
        "dist",
        "build",
        "out",
        "target",
        ".next",
        ".nuxt",
        ".cache",
        ".gradle",
        "__pycache__",
        ".venv",
        "venv",
        ".idea",
        ".vscode",
        "Pods",
        ".swiftpm",
        ".build",
    ];
    proof {
        assert(Seq::new(list@.len(), |i: int| list@[i]@) =~= skip_names());
    }
    is_one_of(chars.as_slice(), list.as_slice())
}

/// Whether one of the names is the given one, upper and lower case of ASCII
/// letters aside.
pub open spec fn ignored(name: Seq<char>, names: Seq<Seq<char>>) -> bool {
    exists|i: int|
        0 <= i < names.len() && text::ascii_lower(#[trigger] names[i]) == text::ascii_lower(name)
}

/// Whether one of the names is the given one, upper and lower case aside.
pub fn is_ignored(name: &str, names: &Vec<String>) -> (r: bool)
    ensures
        r == ignored(name@, names.deep_view()),
{
    let lowered = text::to_ascii_lower(text::chars_of(name).as_slice());
    let mut i: usize = 0;
    while i < names.len()
        invariant
            i <= names@.len(),
            lowered@ == text::ascii_lower(name@),
            forall|j: int|
                0 <= j < i ==> text::ascii_lower(#[trigger] names.deep_view()[j])
                    != text::ascii_lower(name@),
        decreases names@.len() - i,
    {
        let other = text::to_ascii_lower(text::chars_of(names[i].as_str()).as_slice());
        if text::same(other.as_slice(), lowered.as_slice()) {
            proof {
                assert(names.deep_view()[i as int] == names@[i as int]@);
            }
            return true;
        }
        i += 1;
    }
    false
}

/// A search in progress: the directories still to read, each with its
/// depth, and the repositories found so far.
pub struct RepoScan {
    pub queue: VecDeque<(String, i32)>,
    pub repos: Vec<GitRepoInfo>,
}

/// The mathematical form of a search.
pub struct RepoScanModel {
    pub queue: Seq<(Seq<char>, i32)>,
    pub repos: Seq<GitRepoModel>,
}

impl DeepView for RepoScan {
    type V = RepoScanModel;

    open spec fn deep_view(&self) -> RepoScanModel {
        RepoScanModel { queue: self.queue.deep_view(), repos: self.repos.deep_view() }
    }
}

/// The repository at an entry. Without a name of its own it is shown under
/// its path.
pub open spec fn repo_at(e: RepoEntryModel) -> GitRepoModel {
    GitRepoModel {
        path: e.path,
        name: match e.name {
            Some(n) => n,
            None => e.path,
        },
        current_branch: branch_name(e.head),
    }
}

/// Whether a directory that holds no repository is searched.
pub open spec fn searched(e: RepoEntryModel, ignored_folders: Seq<Seq<char>>) -> bool {
    match e.name {
        Some(n) => !skip_names().contains(n) && !ignored(n, ignored_folders),
        None => true,
    }
}

/// The depth below a directory. A limited search never gets near the
/// largest depth, and in an unlimited one depths do not matter.
pub open spec fn below(depth: i32) -> i32 {
    if depth < i32::MAX {
        (depth + 1) as i32
    } else {
        depth
    }
}

/// A search after one more entry: a repository is taken and not searched, a
/// directory is queued.
pub open spec fn with_entry(
    m: RepoScanModel,
    e: RepoEntryModel,
    depth: i32,
    ignored_folders: Seq<Seq<char>>,
) -> RepoScanModel {
    if e.has_git {
        RepoScanModel { repos: m.repos.push(repo_at(e)), ..m }
    } else if e.is_dir && searched(e, ignored_folders) {
        RepoScanModel { queue: m.queue.push((e.path, below(depth))), ..m }
    } else {
        m
    }
}

/// A search after the entries of a directory.
pub open spec fn with_entries(
    m: RepoScanModel,
    es: Seq<RepoEntryModel>,
    depth: i32,
    ignored_folders: Seq<Seq<char>>,
) -> RepoScanModel
    decreases es.len(),
{
    if es.len() == 0 {
        m
    } else {
        with_entry(
            with_entries(m, es.drop_last(), depth, ignored_folders),
            es.last(),
            depth,
            ignored_folders,
        )
    }
}

/// Whether the entries of a directory at this depth are looked at. A
/// negative limit is none.
pub open spec fn within(max_depth: i32, depth: i32) -> bool {
    max_depth < 0 || depth < max_depth
}

/// The queue from the first directory on that is within the limit.
pub open spec fn ready(queue: Seq<(Seq<char>, i32)>, max_depth: i32) -> Seq<(Seq<char>, i32)>
    decreases queue.len(),
{
    if queue.len() == 0 || within(max_depth, queue[0].1) {
        queue
    } else {
        ready(queue.skip(1), max_depth)
    }
}

/// The order of repositories: by path.
pub open spec fn by_path() -> spec_fn(GitRepoModel, GitRepoModel) -> bool {
    |a: GitRepoModel, b: GitRepoModel| order::not_after(a.path, b.path)
}

/// Orders repositories by path.
pub struct ByPath;

impl Ranking<GitRepoInfo> for ByPath {
    open spec fn order() -> spec_fn(GitRepoInfo, GitRepoInfo) -> bool {
        |a: GitRepoInfo, b: GitRepoInfo| order::not_after(a.path@, b.path@)
    }

    proof fn laws() {
        let le = Self::order();
        assert forall|a: GitRepoInfo, b: GitRepoInfo| #[trigger] le(a, b) || le(b, a) by {
            order::lemma_before_total(a.path@, b.path@);
        }
        assert forall|a: GitRepoInfo, b: GitRepoInfo, c: GitRepoInfo| #[trigger]
            le(a, b) && #[trigger] le(b, c) implies le(a, c) by {
            order::lemma_not_after_transitive(a.path@, b.path@, c.path@);
        }
    }

    fn in_order(a: &GitRepoInfo, b: &GitRepoInfo) -> (r: bool) {
        let left = text::chars_of(a.path.as_str());
        let right = text::chars_of(b.path.as_str());
        !order::comes_before(right.as_slice(), left.as_slice())
    }
}

/// The repository at an entry.
fn repository(e: &RepoEntry) -> (r: GitRepoInfo)
    ensures
        r.deep_view() == repo_at(e.deep_view()),
{
    let name = match &e.name {
        Some(n) => n.clone(),
        None => e.path.clone(),
    };
    GitRepoInfo { path: e.path.clone(), name, current_branch: get_current_branch_name(&e.head) }
}

impl RepoScan {
    /// Starts a search. A root that is no directory has no repositories; a
    /// root that is a repository is the only one.
    pub fn start(root: &RepoEntry) -> (s: RepoScan)
        ensures
            s.deep_view() == (if !root.is_dir {
                RepoScanModel { queue: Seq::empty(), repos: Seq::empty() }
            } else if root.has_git {
                RepoScanModel { queue: Seq::empty(), repos: seq![repo_at(root.deep_view())] }
            } else {
                RepoScanModel { queue: seq![(root.path@, 0i32)], repos: Seq::empty() }
            }),
    {
        let mut queue: VecDeque<(String, i32)> = VecDeque::new();
        let mut repos: Vec<GitRepoInfo> = Vec::new();
        if root.is_dir {
            if root.has_git {
                repos.push(repository(root));
            } else {
                queue.push_back((root.path.clone(), 0));
            }
        }
        let s = RepoScan { queue, repos };
        proof {
            if root.is_dir && root.has_git {
                assert(s.repos.deep_view() =~= seq![repo_at(root.deep_view())]);
                assert(s.queue.deep_view() =~= Seq::<(Seq<char>, i32)>::empty());
            } else if root.is_dir {
                assert(s.repos.deep_view() =~= Seq::<GitRepoModel>::empty());
                assert(s.queue.deep_view() =~= seq![(root.path@, 0i32)]);
            } else {
                assert(s.repos.deep_view() =~= Seq::<GitRepoModel>::empty());
                assert(s.queue.deep_view() =~= Seq::<(Seq<char>, i32)>::empty());
            }
        }
        s
    }

    /// Takes the next directory to read from the queue. Directories at the
    /// depth limit are dropped.
    pub fn next_directory(&mut self, max_depth: i32) -> (r: Option<(String, i32)>)
        ensures
            final(self).repos == old(self).repos,
            ({
                let left = ready(old(self).deep_view().queue, max_depth);
                if left.len() == 0 {
                    r is None && final(self).deep_view().queue == left
                } else {
                    r.deep_view() == Some(left[0]) && final(self).deep_view().queue == left.skip(1)
                }
            }),
    {
        let ghost start = self.queue.deep_view();
        loop
            invariant
                self.repos == old(self).repos,
                start == old(self).queue.deep_view(),
                ready(start, max_depth) == ready(self.queue.deep_view(), max_depth),
            decreases self.queue@.len(),
        {
            let ghost before = self.queue.deep_view();
            match self.queue.pop_front() {
                None => {
                    assert(self.queue.deep_view() =~= before);
                    return None;
                },
                Some(item) => {
                    proof {
                        assert(before[0] == item.deep_view());
                        assert(self.queue.deep_view() =~= before.skip(1));
                    }
                    if max_depth < 0 || item.1 < max_depth {
                        return Some(item);
                    }
                },
            }
        }
    }

    /// Takes in the entries of a directory.
    pub fn visit(&mut self, entries: &Vec<RepoEntry>, depth: i32, ignored_folders: &Vec<String>)
        ensures
            final(self).deep_view() == with_entries(
                old(self).deep_view(),
                entries.deep_view(),
                depth,
                ignored_folders.deep_view(),
            ),
    {
        let ghost all = entries.deep_view();
        let mut i: usize = 0;
        while i < entries.len()
            invariant
                i <= entries@.len(),
                all == entries.deep_view(),
                self.deep_view() == with_entries(
                    old(self).deep_view(),
                    all.take(i as int),
                    depth,
                    ignored_folders.deep_view(),
                ),
            decreases entries@.len() - i,
        {
            let e = &entries[i];
            let ghost before = self.deep_view();
            proof {
                assert(all.take(i + 1).drop_last() =~= all.take(i as int));
                assert(all.take(i + 1).last() == e.deep_view());
            }
            if e.has_git {
                let repo = repository(e);
                self.repos.push(repo);
                proof {
                    assert(self.repos.deep_view() =~= before.repos.push(repo.deep_view()));
                }
            } else if e.is_dir {
                let skipped = match &e.name {
                    Some(n) => is_skip_dir(n.as_str()) || is_ignored(n.as_str(), ignored_folders),
                    None => false,
                };
                if !skipped {
                    let next: i32 = if depth < 2147483647 {
                        depth + 1
                    } else {
                        depth
                    };
                    let item = (e.path.clone(), next);
                    self.queue.push_back(item);
                    proof {
                        assert(self.queue.deep_view() =~= before.queue.push(item.deep_view()));
                    }
                }
            }
            i += 1;
        }
        proof {
            assert(all.take(i as int) =~= all);
        }
    }

    /// The repositories found, ordered by path.
    pub fn discover_git_repos(self) -> (r: Vec<GitRepoInfo>)
        ensures
            r.deep_view() == order::sorted(self.deep_view().repos, by_path()),
    {
        let ghost f = |x: GitRepoInfo| x.deep_view();
        proof {
            assert(self.repos.deep_view() =~= self.repos@.map_values(f));
            order::lemma_sorted_map(self.repos@, ByPath::order(), f, by_path());
        }
        let r = order::sort::<GitRepoInfo, ByPath>(self.repos);
        proof {
            assert(r.deep_view() =~= r@.map_values(f));
        }
        r
    }
}

/// In a search with a depth limit, every directory in the queue is at most
/// at that depth, provided this held before and the directory just read was
/// within the limit: no entry is looked at more levels below the root than
/// the limit allows.
pub proof fn law_depth_is_limited(
    m: RepoScanModel,
    es: Seq<RepoEntryModel>,
    depth: i32,
    max_depth: i32,
    ignored_folders: Seq<Seq<char>>,
)
    requires
        0 <= max_depth,
        within(max_depth, depth),
        forall|i: int| 0 <= i < m.queue.len() ==> (#[trigger] m.queue[i]).1 <= max_depth,
    ensures
        forall|i: int|
            0 <= i < with_entries(m, es, depth, ignored_folders).queue.len() ==> (
            #[trigger] with_entries(m, es, depth, ignored_folders).queue[i]).1 <= max_depth,
    decreases es.len(),
{
    if es.len() > 0 {
        law_depth_is_limited(m, es.drop_last(), depth, max_depth, ignored_folders);
        let mid = with_entries(m, es.drop_last(), depth, ignored_folders);
        let after = with_entries(m, es, depth, ignored_folders);
        assert forall|i: int| 0 <= i < after.queue.len() implies (#[trigger] after.queue[i]).1
            <= max_depth by {
            if i < mid.queue.len() {
                assert(after.queue[i] == mid.queue[i]);
            }
        }
    }
}

/// A repository is reported and its own directory is never queued: what a
/// directory adds to the queue are entries that hold no repository.
pub proof fn law_repositories_are_not_searched(
    m: RepoScanModel,
    es: Seq<RepoEntryModel>,
    depth: i32,
    ignored_folders: Seq<Seq<char>>,
)
    ensures
        ({
            let after = with_entries(m, es, depth, ignored_folders);
            &&& m.queue.is_prefix_of(after.queue)
            &&& m.repos.is_prefix_of(after.repos)
            &&& forall|i: int|
                m.queue.len() <= i < after.queue.len() ==> exists|k: int|
                    0 <= k < es.len() && !(#[trigger] es[k]).has_git && es[k].path
                        == (#[trigger] after.queue[i]).0
            &&& forall|k: int|
                0 <= k < es.len() && (#[trigger] es[k]).has_git ==> after.repos.contains(
                    repo_at(es[k]),
                )
        }),
    decreases es.len(),
{
    let after = with_entries(m, es, depth, ignored_folders);
    if es.len() == 0 {
        assert(m.queue =~= m.queue.take(m.queue.len() as int));
        assert(m.repos =~= m.repos.take(m.repos.len() as int));
    } else {
        let inner = es.drop_last();
        law_repositories_are_not_searched(m, inner, depth, ignored_folders);
        let mid = with_entries(m, inner, depth, ignored_folders);
        assert(m.queue =~= after.queue.take(m.queue.len() as int));
        assert(m.repos =~= after.repos.take(m.repos.len() as int));
        assert forall|i: int| m.queue.len() <= i < after.queue.len() implies exists|k: int|
            0 <= k < es.len() && !(#[trigger] es[k]).has_git && es[k].path
                == (#[trigger] after.queue[i]).0 by {
            if i < mid.queue.len() {
                assert(after.queue[i] == mid.queue[i]);
                let k = choose|k: int|
                    0 <= k < inner.len() && !(#[trigger] inner[k]).has_git && inner[k].path
                        == mid.queue[i].0;
                assert(es[k] == inner[k]);
            } else {
                assert(es[es.len() - 1] == es.last());
            }
        }
        assert forall|k: int| 0 <= k < es.len() && (#[trigger] es[k]).has_git implies after.repos.contains(
            repo_at(es[k]),
        ) by {
            if k < inner.len() {
                assert(inner[k] == es[k]);
                let j = choose|j: int|
                    0 <= j < mid.repos.len() && mid.repos[j] == repo_at(es[k]);
                assert(after.repos[j] == mid.repos[j]);
            } else {
                assert(after.repos[mid.repos.len() as int] == repo_at(es[k]));
            }
        }
    }
}

// ---------------------------------------------------------------------
// The whole search
// ---------------------------------------------------------------------

/// A search that is carried out to its end: what it has left to do and has
/// found, and the directories that it has read.
pub struct SearchModel {
    pub scan: RepoScanModel,
    pub read: Seq<(Seq<char>, i32)>,
}

/// A search after its next directory, where `tree` tells the entries of
/// each directory.
pub open spec fn one_more(
    w: SearchModel,
    tree: spec_fn(Seq<char>) -> Seq<RepoEntryModel>,
    max_depth: i32,
    ignored_folders: Seq<Seq<char>>,
) -> SearchModel {
    let left = ready(w.scan.queue, max_depth);
    if left.len() == 0 {
        SearchModel { scan: RepoScanModel { queue: left, ..w.scan }, ..w }
    } else {
        SearchModel {
            scan: with_entries(
                RepoScanModel { queue: left.skip(1), ..w.scan },
                tree(left[0].0),
                left[0].1,
                ignored_folders,
            ),
            read: w.read.push(left[0]),
        }
    }
}

/// A search below a directory after a number of directories.
pub open spec fn walked(
    root: Seq<char>,
    tree: spec_fn(Seq<char>) -> Seq<RepoEntryModel>,
    max_depth: i32,
    ignored_folders: Seq<Seq<char>>,
    steps: nat,
) -> SearchModel
    decreases steps,
{
    if steps == 0 {
        SearchModel {
            scan: RepoScanModel { queue: seq![(root, 0i32)], repos: Seq::empty() },
            read: Seq::empty(),
        }
    } else {
        one_more(
            walked(root, tree, max_depth, ignored_folders, (steps - 1) as nat),
            tree,
            max_depth,
            ignored_folders,
        )
    }
}

/// A depth as the search counts it.
pub open spec fn counted_depth(depth: nat) -> i32 {
    if depth < i32::MAX {
        depth as i32
    } else {
        i32::MAX
    }
}

/// Whether a directory can be reached from the root over directories that
/// are searched, at a depth.
pub open spec fn reached(
    root: Seq<char>,
    tree: spec_fn(Seq<char>) -> Seq<RepoEntryModel>,
    ignored_folders: Seq<Seq<char>>,
    path: Seq<char>,
    depth: nat,
) -> bool
    decreases depth,
{
    if depth == 0 {
        path == root
    } else {
        exists|above: Seq<char>, i: int|
            #![trigger tree(above)[i]]
            reached(root, tree, ignored_folders, above, (depth - 1) as nat) && 0 <= i < tree(
                above,
            ).len() && leads_on(tree(above)[i], ignored_folders) && tree(above)[i].path == path
    }
}

/// Whether the search goes on in an entry.
pub open spec fn leads_on(e: RepoEntryModel, ignored_folders: Seq<Seq<char>>) -> bool {
    !e.has_git && e.is_dir && searched(e, ignored_folders)
}

/// Whether a repository is one of those to be found: it is an entry of a
/// directory that can be reached, within the limit of depth.
pub open spec fn to_be_found(
    root: Seq<char>,
    tree: spec_fn(Seq<char>) -> Seq<RepoEntryModel>,
    max_depth: i32,
    ignored_folders: Seq<Seq<char>>,
    repo: GitRepoModel,
) -> bool {
    exists|above: Seq<char>, depth: nat, i: int|
        #![trigger reached(root, tree, ignored_folders, above, depth), tree(above)[i]]
        reached(root, tree, ignored_folders, above, depth) && within(
            max_depth,
            counted_depth(depth),
        ) && 0 <= i < tree(above).len() && tree(above)[i].has_git && repo_at(tree(above)[i])
            == repo
}

/// Whether a directory was read, is still to be read, or is too deep.
spec fn is_known(w: SearchModel, max_depth: i32, d: (Seq<char>, i32)) -> bool {
    w.read.contains(d) || w.scan.queue.contains(d) || !within(max_depth, d.1)
}

spec fn is_reached(
    root: Seq<char>,
    tree: spec_fn(Seq<char>) -> Seq<RepoEntryModel>,
    ignored_folders: Seq<Seq<char>>,
    d: (Seq<char>, i32),
) -> bool {
    exists|depth: nat|
        #[trigger] reached(root, tree, ignored_folders, d.0, depth) && counted_depth(depth) == d.1
}

/// What holds at every point of a search.
spec fn walk_holds(
    root: Seq<char>,
    tree: spec_fn(Seq<char>) -> Seq<RepoEntryModel>,
    max_depth: i32,
    ignored_folders: Seq<Seq<char>>,
    w: SearchModel,
) -> bool {
    &&& is_known(w, max_depth, (root, 0i32))
    &&& forall|k: int|
        0 <= k < w.scan.queue.len() ==> is_reached(
            root,
            tree,
            ignored_folders,
            #[trigger] w.scan.queue[k],
        )
    &&& forall|k: int|
        0 <= k < w.scan.repos.len() ==> to_be_found(
            root,
            tree,
            max_depth,
            ignored_folders,
            #[trigger] w.scan.repos[k],
        )
    &&& forall|k: int, i: int|
        #![trigger w.read[k], tree(w.read[k].0)[i]]
        0 <= k < w.read.len() && 0 <= i < tree(w.read[k].0).len() ==> {
            let e = tree(w.read[k].0)[i];
            &&& e.has_git ==> w.scan.repos.contains(repo_at(e))
            &&& leads_on(e, ignored_folders) ==> is_known(
                w,
                max_depth,
                (e.path, below(w.read[k].1)),
            )
        }
}

/// What entering a directory does.
proof fn lemma_entered(
    m: RepoScanModel,
    es: Seq<RepoEntryModel>,
    depth: i32,
    ignored_folders: Seq<Seq<char>>,
)
    ensures
        ({
            let after = with_entries(m, es, depth, ignored_folders);
            &&& forall|d: (Seq<char>, i32)| m.queue.contains(d) ==> after.queue.contains(d)
            &&& forall|r: GitRepoModel| m.repos.contains(r) ==> after.repos.contains(r)
            &&& forall|i: int|
                0 <= i < es.len() && (#[trigger] es[i]).has_git ==> after.repos.contains(
                    repo_at(es[i]),
                )
            &&& forall|i: int|
                0 <= i < es.len() && leads_on(#[trigger] es[i], ignored_folders)
                    ==> after.queue.contains((es[i].path, below(depth)))
            &&& forall|d: (Seq<char>, i32)|
                #[trigger] after.queue.contains(d) ==> m.queue.contains(d) || d.1 == below(depth)
                    && exists|i: int|
                    0 <= i < es.len() && leads_on(#[trigger] es[i], ignored_folders) && es[i].path
                        == d.0
            &&& forall|r: GitRepoModel|
                #[trigger] after.repos.contains(r) ==> m.repos.contains(r) || exists|i: int|
                    0 <= i < es.len() && (#[trigger] es[i]).has_git && repo_at(es[i]) == r
        }),
    decreases es.len(),
{
    if es.len() > 0 {
        let front = es.drop_last();
        let last = es.last();
        lemma_entered(m, front, depth, ignored_folders);
        let mid = with_entries(m, front, depth, ignored_folders);
        let after = with_entries(m, es, depth, ignored_folders);
        lemma_push_holds(mid.queue, (last.path, below(depth)));
        lemma_push_holds(mid.repos, repo_at(last));
        assert forall|i: int| 0 <= i < es.len() && (#[trigger] es[i]).has_git implies after.repos.contains(
            repo_at(es[i]),
        ) by {
            if i < front.len() {
                assert(front[i] == es[i]);
            }
        }
        assert forall|i: int|
            0 <= i < es.len() && leads_on(#[trigger] es[i], ignored_folders) implies after.queue.contains(
            (es[i].path, below(depth)),
        ) by {
            if i < front.len() {
                assert(front[i] == es[i]);
            }
        }
        assert forall|d: (Seq<char>, i32)| #[trigger] after.queue.contains(d) implies m.queue.contains(
            d,
        ) || d.1 == below(depth) && exists|i: int|
            0 <= i < es.len() && leads_on(#[trigger] es[i], ignored_folders) && es[i].path == d.0 by {
            if mid.queue.contains(d) {
                if !m.queue.contains(d) {
                    let i = choose|i: int|
                        0 <= i < front.len() && leads_on(#[trigger] front[i], ignored_folders)
                            && front[i].path == d.0;
                    assert(es[i] == front[i]);
                }
            } else {
                assert(es[es.len() - 1] == last);
            }
        }
        assert forall|r: GitRepoModel| #[trigger] after.repos.contains(r) implies m.repos.contains(
            r,
        ) || exists|i: int| 0 <= i < es.len() && (#[trigger] es[i]).has_git && repo_at(es[i]) == r by {
            if mid.repos.contains(r) {
                if !m.repos.contains(r) {
                    let i = choose|i: int|
                        0 <= i < front.len() && (#[trigger] front[i]).has_git && repo_at(front[i])
                            == r;
                    assert(es[i] == front[i]);
                }
            } else {
                assert(es[es.len() - 1] == last);
            }
        }
    }
}

proof fn lemma_push_holds<A>(s: Seq<A>, a: A)
    ensures
        forall|x: A| #[trigger] s.push(a).contains(x) <==> s.contains(x) || x == a,
{
    assert forall|x: A| #[trigger] s.push(a).contains(x) <==> s.contains(x) || x == a by {
        if s.contains(x) {
            let i = choose|i: int| 0 <= i < s.len() && s[i] == x;
            assert(s.push(a)[i] == x);
        }
        if x == a {
            assert(s.push(a)[s.len() as int] == x);
        }
    }
}

/// Only directories that are too deep are dropped from the queue.
proof fn lemma_ready(queue: Seq<(Seq<char>, i32)>, max_depth: i32)
    ensures
        ready(queue, max_depth).len() > 0 ==> within(max_depth, ready(queue, max_depth)[0].1),
        forall|d: (Seq<char>, i32)|
            #[trigger] queue.contains(d) ==> ready(queue, max_depth).contains(d) || !within(
                max_depth,
                d.1,
            ),
        forall|d: (Seq<char>, i32)| #[trigger] ready(queue, max_depth).contains(d) ==> queue.contains(d),
    decreases queue.len(),
{
    if queue.len() > 0 && !within(max_depth, queue[0].1) {
        let rest = queue.skip(1);
        lemma_ready(rest, max_depth);
        assert forall|d: (Seq<char>, i32)| #[trigger] queue.contains(d) implies ready(
            queue,
            max_depth,
        ).contains(d) || !within(max_depth, d.1) by {
            let i = choose|i: int| 0 <= i < queue.len() && queue[i] == d;
            if i > 0 {
                assert(rest[i - 1] == d);
                assert(rest.contains(d));
            }
        }
        assert forall|d: (Seq<char>, i32)| #[trigger] ready(queue, max_depth).contains(
            d,
        ) implies queue.contains(d) by {
            let i = choose|i: int| 0 <= i < rest.len() && rest[i] == d;
            assert(queue[i + 1] == d);
        }
    }
}

proof fn lemma_is_reached(
    root: Seq<char>,
    tree: spec_fn(Seq<char>) -> Seq<RepoEntryModel>,
    ignored_folders: Seq<Seq<char>>,
    d: (Seq<char>, i32),
    depth: nat,
)
    requires
        reached(root, tree, ignored_folders, d.0, depth),
        counted_depth(depth) == d.1,
    ensures
        is_reached(root, tree, ignored_folders, d),
{
}

/// A directory that a directory leads to is reached one level deeper.
proof fn lemma_one_deeper(
    root: Seq<char>,
    tree: spec_fn(Seq<char>) -> Seq<RepoEntryModel>,
    ignored_folders: Seq<Seq<char>>,
    d: (Seq<char>, i32),
    i: int,
)
    requires
        is_reached(root, tree, ignored_folders, d),
        0 <= i < tree(d.0).len(),
        leads_on(tree(d.0)[i], ignored_folders),
    ensures
        is_reached(root, tree, ignored_folders, (tree(d.0)[i].path, below(d.1))),
{
    let depth = choose|depth: nat|
        #[trigger] reached(root, tree, ignored_folders, d.0, depth) && counted_depth(depth) == d.1;
    assert(reached(root, tree, ignored_folders, tree(d.0)[i].path, depth + 1)) by {
        assert(((depth + 1) - 1) as nat == depth);
        assert(reached(root, tree, ignored_folders, d.0, ((depth + 1) - 1) as nat));
    }
    lemma_is_reached(
        root,
        tree,
        ignored_folders,
        (tree(d.0)[i].path, below(d.1)),
        depth + 1,
    );
}

proof fn lemma_next_directory(
    root: Seq<char>,
    tree: spec_fn(Seq<char>) -> Seq<RepoEntryModel>,
    max_depth: i32,
    ignored_folders: Seq<Seq<char>>,
    w: SearchModel,
)
    requires
        walk_holds(root, tree, max_depth, ignored_folders, w),
    ensures
        walk_holds(
            root,
            tree,
            max_depth,
            ignored_folders,
            one_more(w, tree, max_depth, ignored_folders),
        ),
{
    let now = one_more(w, tree, max_depth, ignored_folders);
    let left = ready(w.scan.queue, max_depth);
    lemma_ready(w.scan.queue, max_depth);
    if left.len() == 0 {
        assert forall|d: (Seq<char>, i32)| is_known(w, max_depth, d) implies #[trigger] is_known(
            now,
            max_depth,
            d,
        ) by {
            if w.scan.queue.contains(d) {
                assert(!left.contains(d));
            }
        }
    } else {
        let d0 = left[0];
        let es = tree(d0.0);
        let rest = RepoScanModel { queue: left.skip(1), ..w.scan };
        lemma_entered(rest, es, d0.1, ignored_folders);
        lemma_push_holds(w.read, d0);
        assert(left.contains(d0));
        let k0 = choose|k: int| 0 <= k < w.scan.queue.len() && w.scan.queue[k] == d0;
        assert(is_reached(root, tree, ignored_folders, w.scan.queue[k0]));
        assert forall|d: (Seq<char>, i32)| is_known(w, max_depth, d) implies #[trigger] is_known(
            now,
            max_depth,
            d,
        ) by {
            if w.scan.queue.contains(d) && within(max_depth, d.1) {
                assert(left.contains(d));
                let i = choose|i: int| 0 <= i < left.len() && left[i] == d;
                if i > 0 {
                    assert(rest.queue[i - 1] == d);
                    assert(rest.queue.contains(d));
                }
            }
        }
        assert forall|k: int| 0 <= k < now.scan.queue.len() implies is_reached(
            root,
            tree,
            ignored_folders,
            #[trigger] now.scan.queue[k],
        ) by {
            let d = now.scan.queue[k];
            assert(now.scan.queue.contains(d));
            if rest.queue.contains(d) {
                let j = choose|j: int| 0 <= j < rest.queue.len() && rest.queue[j] == d;
                assert(left[j + 1] == d);
                assert(left.contains(d));
                assert(w.scan.queue.contains(d));
                let q = choose|q: int| 0 <= q < w.scan.queue.len() && w.scan.queue[q] == d;
                assert(is_reached(root, tree, ignored_folders, w.scan.queue[q]));
            } else {
                let i = choose|i: int|
                    0 <= i < es.len() && leads_on(#[trigger] es[i], ignored_folders) && es[i].path
                        == d.0;
                lemma_one_deeper(root, tree, ignored_folders, d0, i);
            }
        }
        assert forall|k: int| 0 <= k < now.scan.repos.len() implies to_be_found(
            root,
            tree,
            max_depth,
            ignored_folders,
            #[trigger] now.scan.repos[k],
        ) by {
            let r = now.scan.repos[k];
            assert(now.scan.repos.contains(r));
            if w.scan.repos.contains(r) {
                let j = choose|j: int| 0 <= j < w.scan.repos.len() && w.scan.repos[j] == r;
                assert(to_be_found(root, tree, max_depth, ignored_folders, w.scan.repos[j]));
            } else {
                let i = choose|i: int|
                    0 <= i < es.len() && (#[trigger] es[i]).has_git && repo_at(es[i]) == r;
                let depth = choose|depth: nat|
                    #[trigger] reached(root, tree, ignored_folders, d0.0, depth) && counted_depth(
                        depth,
                    ) == d0.1;
                assert(reached(root, tree, ignored_folders, d0.0, depth));
                assert(tree(d0.0)[i].has_git);
            }
        }
        assert forall|k: int, i: int|
            #![trigger now.read[k], tree(now.read[k].0)[i]]
            0 <= k < now.read.len() && 0 <= i < tree(now.read[k].0).len() implies {
            let e = tree(now.read[k].0)[i];
            &&& e.has_git ==> now.scan.repos.contains(repo_at(e))
            &&& leads_on(e, ignored_folders) ==> is_known(
                now,
                max_depth,
                (e.path, below(now.read[k].1)),
            )
        } by {
            let e = tree(now.read[k].0)[i];
            if k < w.read.len() {
                assert(now.read[k] == w.read[k]);
                assert(tree(w.read[k].0)[i] == e);
                if leads_on(e, ignored_folders) {
                    assert(is_known(w, max_depth, (e.path, below(w.read[k].1))));
                }
            } else {
                assert(now.read[k] == d0);
                assert(es[i] == e);
            }
        }
    }
}

proof fn lemma_walked(
    root: Seq<char>,
    tree: spec_fn(Seq<char>) -> Seq<RepoEntryModel>,
    max_depth: i32,
    ignored_folders: Seq<Seq<char>>,
    steps: nat,
)
    ensures
        walk_holds(
            root,
            tree,
            max_depth,
            ignored_folders,
            walked(root, tree, max_depth, ignored_folders, steps),
        ),
    decreases steps,
{
    if steps == 0 {
        let w = walked(root, tree, max_depth, ignored_folders, 0);
        assert(w.scan.queue[0] == (root, 0i32));
        assert(w.scan.queue.contains((root, 0i32)));
        lemma_is_reached(root, tree, ignored_folders, (root, 0i32), 0);
    } else {
        lemma_walked(root, tree, max_depth, ignored_folders, (steps - 1) as nat);
        lemma_next_directory(
            root,
            tree,
            max_depth,
            ignored_folders,
            walked(root, tree, max_depth, ignored_folders, (steps - 1) as nat),
        );
    }
}

/// Once nothing is left to read, every directory that is reached within the
/// limit was read.
proof fn lemma_all_read(
    root: Seq<char>,
    tree: spec_fn(Seq<char>) -> Seq<RepoEntryModel>,
    max_depth: i32,
    ignored_folders: Seq<Seq<char>>,
    w: SearchModel,
    path: Seq<char>,
    depth: nat,
)
    requires
        walk_holds(root, tree, max_depth, ignored_folders, w),
        ready(w.scan.queue, max_depth).len() == 0,
        reached(root, tree, ignored_folders, path, depth),
        within(max_depth, counted_depth(depth)),
    ensures
        w.read.contains((path, counted_depth(depth))),
    decreases depth,
{
    lemma_ready(w.scan.queue, max_depth);
    let d = (path, counted_depth(depth));
    if depth > 0 {
        let less = (depth - 1) as nat;
        let (above, i) = choose|above: Seq<char>, i: int|
            #![trigger tree(above)[i]]
            reached(root, tree, ignored_folders, above, less) && 0 <= i < tree(above).len()
                && leads_on(tree(above)[i], ignored_folders) && tree(above)[i].path == path;
        assert(within(max_depth, counted_depth(less)));
        lemma_all_read(root, tree, max_depth, ignored_folders, w, above, less);
        let a = (above, counted_depth(less));
        let k = choose|k: int| 0 <= k < w.read.len() && w.read[k] == a;
        assert(tree(w.read[k].0)[i].path == path);
        assert(below(a.1) == counted_depth(depth));
    }
    assert(is_known(w, max_depth, d));
    if w.scan.queue.contains(d) {
        assert(!ready(w.scan.queue, max_depth).contains(d));
    }
}

/// A search that has nothing left to read has found exactly the
/// repositories to be found: those that are entries of a directory which
/// can be reached within the limit, over directories that hold no
/// repository, are not among those never searched and are not ignored.
pub proof fn law_search_finds_the_repositories(
    root: Seq<char>,
    tree: spec_fn(Seq<char>) -> Seq<RepoEntryModel>,
    max_depth: i32,
    ignored_folders: Seq<Seq<char>>,
    steps: nat,
    repo: GitRepoModel,
)
    requires
        ready(
            walked(root, tree, max_depth, ignored_folders, steps).scan.queue,
            max_depth,
        ).len() == 0,
    ensures
        walked(root, tree, max_depth, ignored_folders, steps).scan.repos.contains(repo)
            <==> to_be_found(root, tree, max_depth, ignored_folders, repo),
{
    let w = walked(root, tree, max_depth, ignored_folders, steps);
    lemma_walked(root, tree, max_depth, ignored_folders, steps);
    if w.scan.repos.contains(repo) {
        let k = choose|k: int| 0 <= k < w.scan.repos.len() && w.scan.repos[k] == repo;
        assert(to_be_found(root, tree, max_depth, ignored_folders, w.scan.repos[k]));
    }
    if to_be_found(root, tree, max_depth, ignored_folders, repo) {
        let (above, depth, i) = choose|above: Seq<char>, depth: nat, i: int|
            #![trigger reached(root, tree, ignored_folders, above, depth), tree(above)[i]]
            reached(root, tree, ignored_folders, above, depth) && within(
                max_depth,
                counted_depth(depth),
            ) && 0 <= i < tree(above).len() && tree(above)[i].has_git && repo_at(tree(above)[i])
                == repo;
        lemma_all_read(root, tree, max_depth, ignored_folders, w, above, depth);
        let d = (above, counted_depth(depth));
        let k = choose|k: int| 0 <= k < w.read.len() && w.read[k] == d;
        assert(tree(w.read[k].0)[i].has_git);
    }
}

} // verus!
