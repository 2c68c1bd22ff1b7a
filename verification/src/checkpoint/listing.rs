//! What a checkpoint shows: the files that changed since, and their diffs.

use vstd::prelude::*;
use crate::checkpoint::content;
use crate::checkpoint::content::build_unified_diff;
use crate::checkpoint::manifest;
use crate::checkpoint::manifest::{
    BaselineModel, CheckpointEntry, CheckpointManifest, EntryModel, GitBaseline, ManifestModel,
    OriginalState, StateModel,
};
use crate::checkpoint::sight;
use crate::checkpoint::sight::{
    is_in_play, read_original_content, states_match, ChangeType, EntryFacts, FactsModel, FileStat,
    Sight,
};
use crate::error;
use crate::error::{ErrorModel, StorageError};
use crate::order;
use crate::order::Ranking;
use crate::text;

verus! {

/// A file that changed since the checkpoint.
pub struct CheckpointFileChange {
    pub path: String,
    pub change_type: String,
}

/// The mathematical form of a changed file.
pub struct ChangeModel {
    pub path: Seq<char>,
    pub change_type: Seq<char>,
}

impl DeepView for CheckpointFileChange {
    type V = ChangeModel;

    open spec fn deep_view(&self) -> ChangeModel {
        ChangeModel { path: self.path@, change_type: self.change_type@ }
    }
}

/// The diff of a file that changed since the checkpoint.
pub struct CheckpointFileDiff {
    pub path: String,
    pub change_type: String,
    pub content: String,
    pub is_binary: bool,
}

/// The mathematical form of a diff.
pub struct DiffModel {
    pub path: Seq<char>,
    pub change_type: Seq<char>,
    pub content: Seq<char>,
    pub is_binary: bool,
}

impl DeepView for CheckpointFileDiff {
    type V = DiffModel;

    open spec fn deep_view(&self) -> DiffModel {
        DiffModel {
            path: self.path@,
            change_type: self.change_type@,
            content: self.content@,
            is_binary: self.is_binary,
        }
    }
}

/// Changed files in the order of their paths.
pub open spec fn changes_by_path() -> spec_fn(ChangeModel, ChangeModel) -> bool {
    |a: ChangeModel, b: ChangeModel| order::not_after(a.path, b.path)
}

/// Diffs in the order of their paths.
pub open spec fn diffs_by_path() -> spec_fn(DiffModel, DiffModel) -> bool {
    |a: DiffModel, b: DiffModel| order::not_after(a.path, b.path)
}

struct ChangesByPath;

impl Ranking<CheckpointFileChange> for ChangesByPath {
    open spec fn order() -> spec_fn(CheckpointFileChange, CheckpointFileChange) -> bool {
        |a: CheckpointFileChange, b: CheckpointFileChange| order::not_after(a.path@, b.path@)
    }

    proof fn laws() {
        let le = Self::order();
        assert forall|a: CheckpointFileChange, b: CheckpointFileChange| #[trigger]
            le(a, b) || le(b, a) by {
            order::lemma_before_total(a.path@, b.path@);
        }
        assert forall|a: CheckpointFileChange, b: CheckpointFileChange, c: CheckpointFileChange|
            #[trigger] le(a, b) && #[trigger] le(b, c) implies le(a, c) by {
            order::lemma_not_after_transitive(a.path@, b.path@, c.path@);
        }
    }

    fn in_order(a: &CheckpointFileChange, b: &CheckpointFileChange) -> (r: bool) {
        let left = text::chars_of(a.path.as_str());
        let right = text::chars_of(b.path.as_str());
        !order::comes_before(right.as_slice(), left.as_slice())
    }
}

struct DiffsByPath;

impl Ranking<CheckpointFileDiff> for DiffsByPath {
    open spec fn order() -> spec_fn(CheckpointFileDiff, CheckpointFileDiff) -> bool {
        |a: CheckpointFileDiff, b: CheckpointFileDiff| order::not_after(a.path@, b.path@)
    }

    proof fn laws() {
        let le = Self::order();
        assert forall|a: CheckpointFileDiff, b: CheckpointFileDiff| #[trigger]
            le(a, b) || le(b, a) by {
            order::lemma_before_total(a.path@, b.path@);
        }
        assert forall|a: CheckpointFileDiff, b: CheckpointFileDiff, c: CheckpointFileDiff|
            #[trigger] le(a, b) && #[trigger] le(b, c) implies le(a, c) by {
            order::lemma_not_after_transitive(a.path@, b.path@, c.path@);
        }
    }

    fn in_order(a: &CheckpointFileDiff, b: &CheckpointFileDiff) -> (r: bool) {
        let left = text::chars_of(a.path.as_str());
        let right = text::chars_of(b.path.as_str());
        !order::comes_before(right.as_slice(), left.as_slice())
    }
}

/// How the file of an entry is shown to have changed. A file that was
/// changed again since is shown only where all entries are.
pub open spec fn shown_change<S: Sight>(
    e: EntryModel,
    has_git: bool,
    f: FactsModel<S::V>,
    show_all: bool,
) -> Result<Option<ChangeType>, ErrorModel> {
    if !sight::in_play(e) {
        Ok(None)
    } else if show_all {
        sight::change_since::<S>(e, has_git, f)
    } else {
        match sight::drift::<S>(e, has_git, f) {
            Err(x) => Err(x),
            Ok(Some(_)) => Ok(None),
            Ok(None) => sight::change_since::<S>(e, has_git, f),
        }
    }
}

/// How the file of an entry is shown to have changed.
pub(crate) fn find_change<S: Sight>(
    e: &CheckpointEntry,
    has_git: bool,
    f: &EntryFacts<S>,
    show_all: bool,
) -> (r: Result<Option<ChangeType>, StorageError>)
    ensures
        error::result_view(r) == shown_change::<S>(
            e.deep_view(),
            has_git,
            f.deep_view(),
            show_all,
        ),
{
    if !is_in_play(e) {
        return Ok(None);
    }
    if !show_all {
        match states_match(e, has_git, f) {
            Ok(true) => {},
            Ok(false) => {
                return Ok(None);
            },
            Err(x) => {
                return Err(x);
            },
        }
    }
    f.sight.classify_change(e.path.as_str(), &e.original, has_git, &f.original)
}

/// Whether the entries of a manifest can be compared with a Git baseline.
pub open spec fn uses_git<S: Sight>(m: ManifestModel) -> bool {
    m.git is Some && S::reads_git()
}

/// The changes that the first entries of a manifest show.
pub open spec fn changes_of<S: Sight>(
    m: ManifestModel,
    facts: Seq<FactsModel<S::V>>,
    n: int,
) -> Result<Seq<ChangeModel>, ErrorModel>
    decreases n,
{
    if n <= 0 {
        Ok(Seq::empty())
    } else {
        match changes_of::<S>(m, facts, n - 1) {
            Err(x) => Err(x),
            Ok(found) => match shown_change::<S>(
                m.entries[n - 1],
                uses_git::<S>(m),
                facts[n - 1],
                false,
            ) {
                Err(x) => Err(x),
                Ok(None) => Ok(found),
                Ok(Some(c)) => Ok(
                    found.push(
                        ChangeModel {
                            path: m.entries[n - 1].path,
                            change_type: sight::change_name(c),
                        },
                    ),
                ),
            },
        }
    }
}

/// The changes that a checkpoint shows, in the order of their paths.
pub open spec fn change_list<S: Sight>(m: ManifestModel, facts: Seq<FactsModel<S::V>>) -> Result<
    Seq<ChangeModel>,
    ErrorModel,
> {
    match changes_of::<S>(m, facts, m.entries.len() as int) {
        Ok(found) => Ok(order::sorted(found, changes_by_path())),
        Err(x) => Err(x),
    }
}

/// An error among the first entries is an error of the whole.
proof fn lemma_changes_fail<S: Sight>(
    m: ManifestModel,
    facts: Seq<FactsModel<S::V>>,
    i: int,
    n: int,
)
    requires
        0 <= i <= n,
        changes_of::<S>(m, facts, i) is Err,
    ensures
        changes_of::<S>(m, facts, n) == changes_of::<S>(m, facts, i),
    decreases n - i,
{
    if i < n {
        lemma_changes_fail::<S>(m, facts, i, n - 1);
    }
}

/// The files that going back to a checkpoint would change, and how they
/// differ from what they held first.
pub fn list_checkpoint_changes<S: Sight>(
    m: &CheckpointManifest,
    facts: &Vec<EntryFacts<S>>,
) -> (r: Result<Vec<CheckpointFileChange>, StorageError>)
    requires
        facts@.len() == m.entries@.len(),
    ensures
        error::result_view(r) == change_list::<S>(m.deep_view(), facts.deep_view()),
{
    let ghost mm = m.deep_view();
    let ghost ff = facts.deep_view();
    let has_git = m.git.is_some() && S::can_read_git();
    let mut found: Vec<CheckpointFileChange> = Vec::new();
    let total: usize = m.entries.len();
    let mut i: usize = 0;
    proof {
        assert(found.deep_view() =~= Seq::empty());
    }
    while i < total
        invariant
            i <= total == m.entries@.len() == facts@.len(),
            mm == m.deep_view(),
            ff == facts.deep_view(),
            has_git == uses_git::<S>(mm),
            changes_of::<S>(mm, ff, i as int) == Ok::<Seq<ChangeModel>, ErrorModel>(
                found.deep_view(),
            ),
        decreases total - i,
    {
        let ghost before = found.deep_view();
        proof {
            assert(mm.entries[i as int] == m.entries@[i as int].deep_view());
            assert(ff[i as int] == facts@[i as int].deep_view());
        }
        match find_change(&m.entries[i], has_git, &facts[i], false) {
            Err(x) => {
                proof {
                    assert(changes_of::<S>(mm, ff, i + 1) is Err);
                    lemma_changes_fail::<S>(mm, ff, i + 1, total as int);
                }
                return Err(x);
            },
            Ok(None) => {},
            Ok(Some(c)) => {
                let change = CheckpointFileChange {
                    path: m.entries[i].path.clone(),
                    change_type: c.name(),
                };
                found.push(change);
                proof {
                    assert(found.deep_view() =~= before.push(change.deep_view()));
                }
            },
        }
        i += 1;
    }
    let ghost f = |x: CheckpointFileChange| x.deep_view();
    proof {
        assert(found.deep_view() =~= found@.map_values(f));
        order::lemma_sorted_map(found@, ChangesByPath::order(), f, changes_by_path());
    }
    let out = order::sort::<CheckpointFileChange, ChangesByPath>(found);
    proof {
        assert(out.deep_view() =~= out@.map_values(f));
    }
    Ok(out)
}

// ---------------------------------------------------------------------
// Diffs that were built before
// ---------------------------------------------------------------------

/// How many diffs are remembered.
pub const DIFF_CACHE_MAX_ENTRIES: usize = 2048;

/// A diff that was built before, and what it was built from.
pub struct CachedCheckpointDiff {
    pub key: String,
    pub original_digest: String,
    pub current_mtime_ms: u64,
    pub current_size: u64,
    pub content: String,
    pub is_binary: bool,
}

/// The mathematical form of a remembered diff.
pub struct CachedModel {
    pub key: Seq<char>,
    pub original_digest: Seq<char>,
    pub current_mtime_ms: u64,
    pub current_size: u64,
    pub content: Seq<char>,
    pub is_binary: bool,
}

impl DeepView for CachedCheckpointDiff {
    type V = CachedModel;

    open spec fn deep_view(&self) -> CachedModel {
        CachedModel {
            key: self.key@,
            original_digest: self.original_digest@,
            current_mtime_ms: self.current_mtime_ms,
            current_size: self.current_size,
            content: self.content@,
            is_binary: self.is_binary,
        }
    }
}

/// The diffs that are remembered.
pub struct DiffCache {
    pub diffs: Vec<CachedCheckpointDiff>,
}

impl DeepView for DiffCache {
    type V = Seq<CachedModel>;

    open spec fn deep_view(&self) -> Seq<CachedModel> {
        self.diffs.deep_view()
    }
}

/// The position of the remembered diff with a key.
pub open spec fn key_index(diffs: Seq<CachedModel>, key: Seq<char>) -> Option<int>
    decreases diffs.len(),
{
    if diffs.len() == 0 {
        None
    } else {
        match key_index(diffs.drop_last(), key) {
            Some(i) => Some(i),
            None => if diffs.last().key == key {
                Some(diffs.len() - 1)
            } else {
                None
            },
        }
    }
}

/// Where the first diff of a key stands.
pub proof fn lemma_key_index(diffs: Seq<CachedModel>, key: Seq<char>)
    ensures
        match key_index(diffs, key) {
            Some(i) => 0 <= i < diffs.len() && diffs[i].key == key && forall|j: int|
                0 <= j < i ==> (#[trigger] diffs[j]).key != key,
            None => forall|j: int| 0 <= j < diffs.len() ==> (#[trigger] diffs[j]).key != key,
        },
    decreases diffs.len(),
{
    if diffs.len() > 0 {
        let front = diffs.drop_last();
        lemma_key_index(front, key);
        assert forall|j: int| 0 <= j < front.len() implies #[trigger] diffs[j] == front[j] by {}
    }
}

/// What a remembered diff was built from, as far as the manifest tells.
pub open spec fn digest_of(
    original: StateModel,
    git: Option<BaselineModel>,
    path: Seq<char>,
) -> Seq<char> {
    match original {
        StateModel::Missing => "missing"@,
        StateModel::Object { object_id } => "obj:"@ + object_id,
        StateModel::Git => "git:"@ + (match git {
            Some(baseline) => baseline.head,
            None => "?"@,
        }) + ":"@ + path,
    }
}

/// What a remembered diff was built from, as far as the manifest tells.
pub fn original_digest(original: &OriginalState, git: &Option<GitBaseline>, path: &str) -> (out:
    String)
    ensures
        out@ == digest_of(original.deep_view(), git.deep_view(), path@),
{
    match original {
        OriginalState::Missing => "missing".to_string(),
        OriginalState::Object { object_id } => {
            let mut out = "obj:".to_string();
            out.append(object_id.as_str());
            out
        },
        OriginalState::Git => {
            let mut out = "git:".to_string();
            match git {
                Some(baseline) => {
                    out.append(baseline.head.as_str());
                },
                None => {
                    out.append("?");
                },
            }
            out.append(":");
            out.append(path);
            out
        },
    }
}

/// The key of the diff of a file in a checkpoint.
pub open spec fn cache_key(checkpoint_id: Seq<char>, path: Seq<char>) -> Seq<char> {
    checkpoint_id + ":"@ + path
}

/// The key of the diff of a file in a checkpoint.
fn key_for(checkpoint_id: &str, path: &str) -> (out: String)
    ensures
        out@ == cache_key(checkpoint_id@, path@),
{
    let mut out = checkpoint_id.to_string();
    out.append(":");
    out.append(path);
    out
}

/// The remembered diff of a file, where it was built from what there is now.
pub open spec fn remembered(
    diffs: Seq<CachedModel>,
    key: Seq<char>,
    digest: Seq<char>,
    stat: Option<FileStat>,
) -> Option<CachedModel> {
    match (key_index(diffs, key), stat) {
        (Some(i), Some(s)) => if diffs[i].original_digest == digest && diffs[i].current_mtime_ms
            == s.mtime_ms && diffs[i].current_size == s.size {
            Some(diffs[i])
        } else {
            None
        },
        _ => None,
    }
}

/// The remembered diffs after one was built. When there are too many, the
/// others are forgotten.
pub open spec fn remembering(diffs: Seq<CachedModel>, d: CachedModel) -> Seq<CachedModel> {
    let kept = if diffs.len() >= DIFF_CACHE_MAX_ENTRIES {
        Seq::empty()
    } else {
        diffs
    };
    match key_index(kept, d.key) {
        Some(i) => kept.update(i, d),
        None => kept.push(d),
    }
}

/// Whether a remembered diff belongs to one of the checkpoints.
pub open spec fn belongs(key: Seq<char>, checkpoint_ids: Seq<Seq<char>>) -> bool {
    exists|i: int|
        0 <= i < checkpoint_ids.len() && text::begins(
            key,
            #[trigger] checkpoint_ids[i] + ":"@,
        )
}

/// The remembered diffs without those of the checkpoints.
pub open spec fn forgetting(
    diffs: Seq<CachedModel>,
    checkpoint_ids: Seq<Seq<char>>,
) -> Seq<CachedModel> {
    diffs.filter(|d: CachedModel| !belongs(d.key, checkpoint_ids))
}

/// Whether a remembered diff belongs to one of the checkpoints.
fn belongs_to(key: &str, checkpoint_ids: &Vec<String>) -> (r: bool)
    ensures
        r == belongs(key@, checkpoint_ids.deep_view()),
{
    let chars = text::chars_of(key);
    let ghost ids = checkpoint_ids.deep_view();
    let mut i: usize = 0;
    while i < checkpoint_ids.len()
        invariant
            i <= checkpoint_ids@.len(),
            ids == checkpoint_ids.deep_view(),
            chars@ == key@,
            forall|j: int| 0 <= j < i ==> !text::begins(key@, #[trigger] ids[j] + ":"@),
        decreases checkpoint_ids@.len() - i,
    {
        let mut prefix = checkpoint_ids[i].clone();
        prefix.append(":");
        proof {
            assert(ids[i as int] == checkpoint_ids@[i as int]@);
        }
        if text::starts_with(chars.as_slice(), prefix.as_str()) {
            return true;
        }
        i += 1;
    }
    false
}

/// The diff of a changed file, and the diffs that are remembered then.
pub open spec fn built_diff<S: Sight>(
    checkpoint_id: Seq<char>,
    m: ManifestModel,
    e: EntryModel,
    f: FactsModel<S::V>,
    diffs: Seq<CachedModel>,
) -> Result<(Seq<CachedModel>, Seq<char>, bool), ErrorModel> {
    let key = cache_key(checkpoint_id, e.path);
    let digest = digest_of(e.original, m.git, e.path);
    let stat = S::stat(f.sight);
    match remembered(diffs, key, digest, stat) {
        Some(d) => Ok((diffs, d.content, d.is_binary)),
        None => match sight::original_content(e.original, m.git is Some, f.original) {
            Err(x) => Err(x),
            Ok(original) => match S::content(f.sight, e.path) {
                Err(x) => Err(x),
                Ok(current) => {
                    let diff = content::file_diff(e.path, original, current);
                    let d = CachedModel {
                        key,
                        original_digest: digest,
                        current_mtime_ms: match stat {
                            Some(s) => s.mtime_ms,
                            None => 0,
                        },
                        current_size: match stat {
                            Some(s) => s.size,
                            None => 0,
                        },
                        content: diff.0,
                        is_binary: diff.1,
                    };
                    Ok((remembering(diffs, d), diff.0, diff.1))
                },
            },
        },
    }
}

/// The diffs that are remembered and those that were found so far.
pub struct ListingModel {
    pub cache: Seq<CachedModel>,
    pub diffs: Result<Seq<DiffModel>, ErrorModel>,
}

/// The diffs that the first entries of a manifest show.
pub open spec fn diffs_of<S: Sight>(
    checkpoint_id: Seq<char>,
    m: ManifestModel,
    facts: Seq<FactsModel<S::V>>,
    show_all: bool,
    cache: Seq<CachedModel>,
    n: int,
) -> ListingModel
    decreases n,
{
    if n <= 0 {
        ListingModel { cache, diffs: Ok(Seq::empty()) }
    } else {
        let before = diffs_of::<S>(checkpoint_id, m, facts, show_all, cache, n - 1);
        let e = m.entries[n - 1];
        match before.diffs {
            Err(_) => before,
            Ok(found) => match shown_change::<S>(e, uses_git::<S>(m), facts[n - 1], show_all) {
                Err(x) => ListingModel { cache: before.cache, diffs: Err(x) },
                Ok(None) => before,
                Ok(Some(c)) => match built_diff::<S>(
                    checkpoint_id,
                    m,
                    e,
                    facts[n - 1],
                    before.cache,
                ) {
                    Err(x) => ListingModel { cache: before.cache, diffs: Err(x) },
                    Ok((cache_after, content, is_binary)) => ListingModel {
                        cache: cache_after,
                        diffs: Ok(
                            found.push(
                                DiffModel {
                                    path: e.path,
                                    change_type: sight::change_name(c),
                                    content,
                                    is_binary,
                                },
                            ),
                        ),
                    },
                },
            },
        }
    }
}

/// The diffs that a checkpoint shows, in the order of their paths.
pub open spec fn diff_list<S: Sight>(
    checkpoint_id: Seq<char>,
    m: ManifestModel,
    facts: Seq<FactsModel<S::V>>,
    show_all: bool,
    cache: Seq<CachedModel>,
) -> ListingModel {
    let all = diffs_of::<S>(checkpoint_id, m, facts, show_all, cache, m.entries.len() as int);
    ListingModel {
        cache: all.cache,
        diffs: match all.diffs {
            Ok(found) => Ok(order::sorted(found, diffs_by_path())),
            Err(x) => Err(x),
        },
    }
}

proof fn lemma_diffs_fail<S: Sight>(
    checkpoint_id: Seq<char>,
    m: ManifestModel,
    facts: Seq<FactsModel<S::V>>,
    show_all: bool,
    cache: Seq<CachedModel>,
    i: int,
    n: int,
)
    requires
        0 <= i <= n,
        diffs_of::<S>(checkpoint_id, m, facts, show_all, cache, i).diffs is Err,
    ensures
        diffs_of::<S>(checkpoint_id, m, facts, show_all, cache, n) == diffs_of::<S>(
            checkpoint_id,
            m,
            facts,
            show_all,
            cache,
            i,
        ),
    decreases n - i,
{
    if i < n {
        lemma_diffs_fail::<S>(checkpoint_id, m, facts, show_all, cache, i, n - 1);
    }
}

impl DiffCache {
    /// A cache that remembers nothing.
    pub fn new() -> (c: DiffCache)
        ensures
            c.deep_view() == Seq::<CachedModel>::empty(),
    {
        let c = DiffCache { diffs: Vec::new() };
        proof {
            assert(c.diffs.deep_view() =~= Seq::empty());
        }
        c
    }

    /// The position of the remembered diff with a key.
    fn find_key(&self, key: &str) -> (r: Option<usize>)
        ensures
            match r {
                Some(i) => key_index(self.deep_view(), key@) == Some(i as int) && i
                    < self.diffs@.len(),
                None => key_index(self.deep_view(), key@) is None,
            },
    {
        let ghost all = self.diffs.deep_view();
        let wanted = text::chars_of(key);
        let mut i: usize = 0;
        while i < self.diffs.len()
            invariant
                i <= self.diffs@.len(),
                all == self.diffs.deep_view(),
                wanted@ == key@,
                forall|j: int| 0 <= j < i ==> (#[trigger] all[j]).key != key@,
            decreases self.diffs@.len() - i,
        {
            proof {
                assert(all[i as int] == self.diffs@[i as int].deep_view());
            }
            if text::equals(wanted.as_slice(), self.diffs[i].key.as_str()) {
                proof {
                    lemma_key_index(all, key@);
                    let k = key_index(all, key@)->Some_0;
                    if k < i {
                        assert(all[k].key != key@);
                    }
                    if i < k {
                        assert(all[i as int].key != key@);
                    }
                }
                return Some(i);
            }
            i += 1;
        }
        proof {
            lemma_key_index(all, key@);
        }
        None
    }

    /// The remembered diff of a file, where it was built from what there is
    /// now.
    fn recall(&self, key: &str, digest: &str, stat: Option<FileStat>) -> (r: Option<(String, bool)>)
        ensures
            match (r, remembered(self.deep_view(), key@, digest@, stat)) {
                (Some((content, is_binary)), Some(d)) => content@ == d.content && is_binary
                    == d.is_binary,
                (None, None) => true,
                _ => false,
            },
    {
        match (self.find_key(key), stat) {
            (Some(i), Some(s)) => {
                let d = &self.diffs[i];
                proof {
                    assert(self.deep_view()[i as int] == self.diffs@[i as int].deep_view());
                }
                let wanted = text::chars_of(digest);
                if text::equals(wanted.as_slice(), d.original_digest.as_str())
                    && d.current_mtime_ms == s.mtime_ms && d.current_size == s.size {
                    Some((d.content.clone(), d.is_binary))
                } else {
                    None
                }
            },
            _ => None,
        }
    }

    /// Remembers a diff. When there are too many, the others are forgotten.
    pub fn remember(&mut self, d: CachedCheckpointDiff)
        ensures
            final(self).deep_view() == remembering(old(self).deep_view(), d.deep_view()),
    {
        if self.diffs.len() >= DIFF_CACHE_MAX_ENTRIES {
            self.diffs = Vec::new();
            proof {
                assert(self.diffs.deep_view() =~= Seq::empty());
            }
        }
        let ghost before = self.diffs.deep_view();
        match self.find_key(d.key.as_str()) {
            Some(i) => {
                let ghost seen = self.diffs@;
                self.diffs.set(i, d);
                proof {
                    assert(self.diffs@ =~= seen.update(i as int, d));
                    assert(self.diffs.deep_view() =~= before.update(i as int, d.deep_view()));
                }
            },
            None => {
                self.diffs.push(d);
                proof {
                    assert(self.diffs.deep_view() =~= before.push(d.deep_view()));
                }
            },
        }
    }

    /// Forgets the diffs of the checkpoints.
    pub fn forget(&mut self, checkpoint_ids: &Vec<String>)
        ensures
            final(self).deep_view() == forgetting(
                old(self).deep_view(),
                checkpoint_ids.deep_view(),
            ),
    {
        let ghost all = self.diffs.deep_view();
        let ghost ids = checkpoint_ids.deep_view();
        let ghost keep = |d: CachedModel| !belongs(d.key, ids);
        let ghost mut seen: int = 0;
        let mut i: usize = 0;
        proof {
            assert(all.take(0).filter(keep) =~= Seq::empty()) by {
                reveal_with_fuel(Seq::filter, 2);
            }
            assert(self.diffs.deep_view() =~= all.take(0).filter(keep) + all.skip(0));
        }
        while i < self.diffs.len()
            invariant
                0 <= seen <= all.len(),
                ids == checkpoint_ids.deep_view(),
                keep == (|d: CachedModel| !belongs(d.key, ids)),
                i == all.take(seen).filter(keep).len(),
                self.diffs.deep_view() == all.take(seen).filter(keep) + all.skip(seen),
            decreases self.diffs@.len() - i,
        {
            let ghost kept = all.take(seen).filter(keep);
            let ghost before = self.diffs@;
            let ghost view = self.diffs.deep_view();
            proof {
                assert(self.diffs@.len() == self.diffs.deep_view().len());
                assert(seen < all.len());
                assert(view[i as int] == all.skip(seen)[0]);
                assert(view[i as int] == before[i as int].deep_view());
                assert(all.take(seen + 1).drop_last() =~= all.take(seen));
                reveal_with_fuel(Seq::filter, 2);
            }
            if belongs_to(self.diffs[i].key.as_str(), checkpoint_ids) {
                let _ = self.diffs.remove(i);
                proof {
                    assert(self.diffs@ =~= before.remove(i as int));
                    assert(self.diffs.deep_view() =~= view.remove(i as int));
                    assert(view.remove(i as int) =~= kept + all.skip(seen + 1));
                    seen = seen + 1;
                }
            } else {
                i += 1;
                proof {
                    assert(kept + all.skip(seen) =~= kept.push(all[seen]) + all.skip(seen + 1));
                    seen = seen + 1;
                }
            }
        }
        proof {
            assert(self.diffs@.len() == self.diffs.deep_view().len());
            assert(all.take(seen) =~= all);
            assert(all.skip(seen) =~= Seq::empty());
            assert(self.diffs.deep_view() =~= all.filter(keep));
        }
    }

    /// The diff of a changed file.
    fn build_diff<S: Sight>(
        &mut self,
        checkpoint_id: &str,
        git: &Option<GitBaseline>,
        e: &CheckpointEntry,
        f: &EntryFacts<S>,
        Ghost(m): Ghost<ManifestModel>,
    ) -> (r: Result<(String, bool), StorageError>)
        requires
            m.git == git.deep_view(),
        ensures
            match built_diff::<S>(
                checkpoint_id@,
                m,
                e.deep_view(),
                f.deep_view(),
                old(self).deep_view(),
            ) {
                Ok((cache, content, is_binary)) => final(self).deep_view() == cache && r is Ok
                    && r->Ok_0.0@ == content && r->Ok_0.1 == is_binary,
                Err(x) => *final(self) == *old(self) && r is Err && r->Err_0.deep_view() == x,
            },
    {
        let key = key_for(checkpoint_id, e.path.as_str());
        let digest = original_digest(&e.original, git, e.path.as_str());
        let stat = f.sight.file_stat();
        match self.recall(key.as_str(), digest.as_str(), stat) {
            Some((content, is_binary)) => {
                return Ok((content, is_binary));
            },
            None => {},
        }
        let original = match read_original_content(&e.original, git.is_some(), &f.original) {
            Ok(original) => original,
            Err(x) => {
                return Err(x);
            },
        };
        let current = match f.sight.shown_content(e.path.as_str()) {
            Ok(current) => current,
            Err(x) => {
                return Err(x);
            },
        };
        let (content, is_binary) = build_unified_diff(e.path.as_str(), original, current);
        let current_mtime_ms: u64 = match stat {
            Some(s) => s.mtime_ms,
            None => 0,
        };
        let current_size: u64 = match stat {
            Some(s) => s.size,
            None => 0,
        };
        self.remember(
            CachedCheckpointDiff {
                key,
                original_digest: digest,
                current_mtime_ms,
                current_size,
                content: content.clone(),
                is_binary,
            },
        );
        Ok((content, is_binary))
    }

    /// The diffs from what files held first to what they hold now. Unless
    /// all are asked for, only the files that going back to the checkpoint
    /// would change are shown.
    pub fn list_checkpoint_diffs<S: Sight>(
        &mut self,
        checkpoint_id: &str,
        m: &CheckpointManifest,
        facts: &Vec<EntryFacts<S>>,
        include_all: bool,
    ) -> (r: Result<Vec<CheckpointFileDiff>, StorageError>)
        requires
            facts@.len() == m.entries@.len(),
        ensures
            (ListingModel { cache: final(self).deep_view(), diffs: error::result_view(r) })
                == diff_list::<S>(
                checkpoint_id@,
                m.deep_view(),
                facts.deep_view(),
                include_all,
                old(self).deep_view(),
            ),
    {
        let ghost mm = m.deep_view();
        let ghost ff = facts.deep_view();
        let ghost start = self.deep_view();
        let ghost id = checkpoint_id@;
        let has_git = m.git.is_some() && S::can_read_git();
        let mut found: Vec<CheckpointFileDiff> = Vec::new();
        let total: usize = m.entries.len();
        let mut i: usize = 0;
        proof {
            assert(found.deep_view() =~= Seq::empty());
        }
        while i < total
            invariant
                i <= total == m.entries@.len() == facts@.len(),
                id == checkpoint_id@,
                mm == m.deep_view(),
                ff == facts.deep_view(),
                start == old(self).deep_view(),
                has_git == uses_git::<S>(mm),
                diffs_of::<S>(id, mm, ff, include_all, start, i as int) == (ListingModel {
                    cache: self.deep_view(),
                    diffs: Ok(found.deep_view()),
                }),
            decreases total - i,
        {
            let ghost before = found.deep_view();
            proof {
                assert(mm.entries[i as int] == m.entries@[i as int].deep_view());
                assert(ff[i as int] == facts@[i as int].deep_view());
            }
            match find_change(&m.entries[i], has_git, &facts[i], include_all) {
                Err(x) => {
                    proof {
                        lemma_diffs_fail::<S>(id, mm, ff, include_all, start, i + 1, total as int);
                    }
                    return Err(x);
                },
                Ok(None) => {},
                Ok(Some(c)) => {
                    match self.build_diff(
                        checkpoint_id,
                        &m.git,
                        &m.entries[i],
                        &facts[i],
                        Ghost(mm),
                    ) {
                        Err(x) => {
                            proof {
                                lemma_diffs_fail::<S>(
                                    id,
                                    mm,
                                    ff,
                                    include_all,
                                    start,
                                    i + 1,
                                    total as int,
                                );
                            }
                            return Err(x);
                        },
                        Ok((content, is_binary)) => {
                            let diff = CheckpointFileDiff {
                                path: m.entries[i].path.clone(),
                                change_type: c.name(),
                                content,
                                is_binary,
                            };
                            found.push(diff);
                            proof {
                                assert(found.deep_view() =~= before.push(diff.deep_view()));
                            }
                        },
                    }
                },
            }
            i += 1;
        }
        let ghost f = |x: CheckpointFileDiff| x.deep_view();
        proof {
            assert(found.deep_view() =~= found@.map_values(f));
            order::lemma_sorted_map(found@, DiffsByPath::order(), f, diffs_by_path());
        }
        let out = order::sort::<CheckpointFileDiff, DiffsByPath>(found);
        proof {
            assert(out.deep_view() =~= out@.map_values(f));
        }
        Ok(out)
    }
}

// ---------------------------------------------------------------------
// Remembered diffs make no difference
// ---------------------------------------------------------------------

/// The diff of a changed file, built from what there is now.
pub open spec fn fresh_diff<S: Sight>(m: ManifestModel, e: EntryModel, f: FactsModel<S::V>) -> Result<
    (Seq<char>, bool),
    ErrorModel,
> {
    match sight::original_content(e.original, m.git is Some, f.original) {
        Err(x) => Err(x),
        Ok(original) => match S::content(f.sight, e.path) {
            Err(x) => Err(x),
            Ok(current) => Ok(content::file_diff(e.path, original, current)),
        },
    }
}

/// Whether what is remembered for an entry, if it is used, is the diff that
/// would be built now.
pub open spec fn recalls_truth<S: Sight>(
    checkpoint_id: Seq<char>,
    m: ManifestModel,
    facts: Seq<FactsModel<S::V>>,
    cache: Seq<CachedModel>,
    i: int,
) -> bool {
    let e = m.entries[i];
    match remembered(
        cache,
        cache_key(checkpoint_id, e.path),
        digest_of(e.original, m.git, e.path),
        S::stat(facts[i].sight),
    ) {
        Some(d) => fresh_diff::<S>(m, e, facts[i]) == Ok::<(Seq<char>, bool), ErrorModel>(
            (d.content, d.is_binary),
        ),
        None => true,
    }
}

/// Whether all that is remembered for a checkpoint is what would be built
/// now.
pub open spec fn is_truthful<S: Sight>(
    checkpoint_id: Seq<char>,
    m: ManifestModel,
    facts: Seq<FactsModel<S::V>>,
    cache: Seq<CachedModel>,
) -> bool {
    forall|i: int|
        0 <= i < m.entries.len() ==> #[trigger] recalls_truth::<S>(
            checkpoint_id,
            m,
            facts,
            cache,
            i,
        )
}

/// Remembering a diff changes nothing for other keys, or forgets them.
proof fn lemma_remembering_others(
    diffs: Seq<CachedModel>,
    d: CachedModel,
    key: Seq<char>,
    digest: Seq<char>,
    stat: Option<FileStat>,
)
    requires
        key != d.key,
    ensures
        remembered(remembering(diffs, d), key, digest, stat) is None || remembered(
            remembering(diffs, d),
            key,
            digest,
            stat,
        ) == remembered(diffs, key, digest, stat),
{
    let now = remembering(diffs, d);
    let kept = if diffs.len() >= DIFF_CACHE_MAX_ENTRIES {
        Seq::empty()
    } else {
        diffs
    };
    lemma_key_index(kept, d.key);
    lemma_key_index(kept, key);
    lemma_key_index(now, key);
    if let Some(a) = key_index(now, key) {
        assert(a < kept.len()) by {
            if a >= kept.len() {
                assert(now[a].key == d.key);
            }
        }
        assert(now[a] == kept[a]) by {
            if now[a] != kept[a] {
                assert(now[a] == d);
            }
        }
        let b = key_index(kept, key)->Some_0;
        assert(key_index(kept, key) is Some) by {
            assert(kept[a].key == key);
        }
        if b < a {
            assert(now[b].key != key);
            assert(kept[b].key == key);
        }
        if a < b {
            assert(kept[a].key != key);
        }
    }
}

/// What was just remembered is found under its key.
proof fn lemma_remembering_itself(diffs: Seq<CachedModel>, d: CachedModel)
    ensures
        key_index(remembering(diffs, d), d.key) is Some,
        remembering(diffs, d)[key_index(remembering(diffs, d), d.key)->Some_0] == d,
{
    let now = remembering(diffs, d);
    let kept = if diffs.len() >= DIFF_CACHE_MAX_ENTRIES {
        Seq::empty()
    } else {
        diffs
    };
    lemma_key_index(kept, d.key);
    lemma_key_index(now, d.key);
    let at = match key_index(kept, d.key) {
        Some(i) => i,
        None => kept.len() as int,
    };
    assert(now[at] == d);
    let k = key_index(now, d.key)->Some_0;
    if k < at {
        assert(now[k] == kept[k]);
    }
    if at < k {
        assert(now[at].key != d.key);
    }
}

/// With a truthful cache the diff of an entry is the one that would be built
/// now, and the cache stays truthful.
pub proof fn lemma_built_truthfully<S: Sight>(
    id: Seq<char>,
    m: ManifestModel,
    facts: Seq<FactsModel<S::V>>,
    cache: Seq<CachedModel>,
    i: int,
)
    requires
        0 <= i < m.entries.len(),
        manifest::paths_differ(m.entries),
        is_truthful::<S>(id, m, facts, cache),
    ensures
        match (built_diff::<S>(id, m, m.entries[i], facts[i], cache), fresh_diff::<S>(
            m,
            m.entries[i],
            facts[i],
        )) {
            (Ok((after, text, binary)), Ok((fresh, fresh_binary))) => text == fresh && binary
                == fresh_binary && is_truthful::<S>(id, m, facts, after),
            (Err(x), Err(y)) => x == y,
            _ => false,
        },
{
    let e = m.entries[i];
    let key = cache_key(id, e.path);
    assert(recalls_truth::<S>(id, m, facts, cache, i));
    let built = built_diff::<S>(id, m, e, facts[i], cache);
    let digest = digest_of(e.original, m.git, e.path);
    let stat = S::stat(facts[i].sight);
    if remembered(cache, key, digest, stat) is None && built is Ok {
        let after = built->Ok_0.0;
        let d = CachedModel {
            key,
            original_digest: digest,
            current_mtime_ms: match stat {
                Some(s) => s.mtime_ms,
                None => 0,
            },
            current_size: match stat {
                Some(s) => s.size,
                None => 0,
            },
            content: built->Ok_0.1,
            is_binary: built->Ok_0.2,
        };
        assert(after == remembering(cache, d));
        assert forall|j: int| 0 <= j < m.entries.len() implies #[trigger] recalls_truth::<S>(
            id,
            m,
            facts,
            after,
            j,
        ) by {
            let other = m.entries[j];
            let other_key = cache_key(id, other.path);
            assert(recalls_truth::<S>(id, m, facts, cache, j));
            if j == i {
                lemma_remembering_itself(cache, d);
            } else {
                assert(other.path != e.path);
                assert(other_key != key) by {
                    let n = (id + ":"@).len() as int;
                    assert(other_key.skip(n) =~= other.path);
                    assert(key.skip(n) =~= e.path);
                }
                lemma_remembering_others(
                    cache,
                    d,
                    other_key,
                    digest_of(other.original, m.git, other.path),
                    S::stat(facts[j].sight),
                );
            }
        }
    }
}

proof fn lemma_lists_agree<S: Sight>(
    id: Seq<char>,
    m: ManifestModel,
    facts: Seq<FactsModel<S::V>>,
    show_all: bool,
    one: Seq<CachedModel>,
    other: Seq<CachedModel>,
    n: int,
)
    requires
        0 <= n <= m.entries.len(),
        manifest::paths_differ(m.entries),
        is_truthful::<S>(id, m, facts, one),
        is_truthful::<S>(id, m, facts, other),
    ensures
        diffs_of::<S>(id, m, facts, show_all, one, n).diffs == diffs_of::<S>(
            id,
            m,
            facts,
            show_all,
            other,
            n,
        ).diffs,
        is_truthful::<S>(id, m, facts, diffs_of::<S>(id, m, facts, show_all, one, n).cache),
        is_truthful::<S>(id, m, facts, diffs_of::<S>(id, m, facts, show_all, other, n).cache),
    decreases n,
{
    if n > 0 {
        lemma_lists_agree::<S>(id, m, facts, show_all, one, other, n - 1);
        let a = diffs_of::<S>(id, m, facts, show_all, one, n - 1).cache;
        let b = diffs_of::<S>(id, m, facts, show_all, other, n - 1).cache;
        lemma_built_truthfully::<S>(id, m, facts, a, n - 1);
        lemma_built_truthfully::<S>(id, m, facts, b, n - 1);
    }
}

/// Listing the diffs of a checkpoint again, while nothing changes, shows the
/// same: what is remembered makes no difference. It starts with nothing
/// remembered, or with diffs that were built from what there is now.
pub proof fn law_remembering_makes_no_difference<S: Sight>(
    id: Seq<char>,
    m: ManifestModel,
    facts: Seq<FactsModel<S::V>>,
    show_all: bool,
    cache: Seq<CachedModel>,
)
    requires
        manifest::paths_differ(m.entries),
        is_truthful::<S>(id, m, facts, cache),
    ensures
        diff_list::<S>(id, m, facts, show_all, cache).diffs == diff_list::<S>(
            id,
            m,
            facts,
            show_all,
            Seq::empty(),
        ).diffs,
        is_truthful::<S>(id, m, facts, diff_list::<S>(id, m, facts, show_all, cache).cache),
        is_truthful::<S>(id, m, facts, Seq::empty()),
{
    assert(is_truthful::<S>(id, m, facts, Seq::empty()));
    lemma_lists_agree::<S>(
        id,
        m,
        facts,
        show_all,
        cache,
        Seq::empty(),
        m.entries.len() as int,
    );
}

} // verus!
