//! The state of a working directory before a command runs in it.

use vstd::hash_map::StringHashMap;
use vstd::prelude::*;
use crate::checkpoint::baseline;
use crate::checkpoint::manifest::{
    BaselineModel, CheckpointManifest, GitBaseline, ManifestModel, OriginalState, StateModel,
};
use crate::checkpoint::recording;
use crate::error;
use crate::error::{ErrorModel, StorageError};
use crate::rows::{copy_rows, Copied};
use crate::text;

verus! {

/// How many fingerprints are remembered.
pub const FINGERPRINT_CACHE_MAX_ENTRIES: usize = 100_000;

/// What is remembered of a file: its time and size, and the identifier
/// under which its content is kept.
pub struct FingerprintEntry {
    pub mtime_ms: u64,
    pub size: u64,
    pub object_id: String,
}

/// The mathematical form of a fingerprint.
pub struct FingerprintModel {
    pub mtime_ms: u64,
    pub size: u64,
    pub object_id: Seq<char>,
}

impl DeepView for FingerprintEntry {
    type V = FingerprintModel;

    open spec fn deep_view(&self) -> FingerprintModel {
        FingerprintModel {
            mtime_ms: self.mtime_ms,
            size: self.size,
            object_id: self.object_id@,
        }
    }
}

/// The fingerprints that are remembered.
pub struct FingerprintCache {
    marks: StringHashMap<FingerprintEntry>,
}

impl DeepView for FingerprintCache {
    type V = Map<Seq<char>, FingerprintModel>;

    closed spec fn deep_view(&self) -> Map<Seq<char>, FingerprintModel> {
        self.marks@.map_values(|e: FingerprintEntry| e.deep_view())
    }
}

/// The key of a file in a working directory.
pub open spec fn mark_key(work_dir: Seq<char>, relative: Seq<char>) -> Seq<char> {
    work_dir + "\0"@ + relative
}

/// The key of a file in a working directory.
pub fn fingerprint_key(work_dir: &str, relative: &str) -> (out: String)
    ensures
        out@ == mark_key(work_dir@, relative@),
{
    let mut out = work_dir.to_string();
    out.append("\0");
    out.append(relative);
    out
}

/// The identifier of the content of a file whose time and size are those
/// that are remembered.
pub open spec fn mark_of(
    marks: Map<Seq<char>, FingerprintModel>,
    key: Seq<char>,
    mtime_ms: u64,
    size: u64,
) -> Option<Seq<char>> {
    if marks.contains_key(key) && marks[key].mtime_ms == mtime_ms && marks[key].size == size {
        Some(marks[key].object_id)
    } else {
        None
    }
}

/// The fingerprints after a file was kept. When there are too many, the
/// others are forgotten; an earlier one of the file is replaced.
pub open spec fn marking(
    marks: Map<Seq<char>, FingerprintModel>,
    key: Seq<char>,
    mark: FingerprintModel,
) -> Map<Seq<char>, FingerprintModel> {
    let kept = if marks.len() >= FINGERPRINT_CACHE_MAX_ENTRIES {
        Map::empty()
    } else {
        marks
    };
    kept.insert(key, mark)
}

/// A file that was kept is found again while its time and size stay the
/// same. What is remembered of other files stays, or is forgotten; it never
/// changes.
pub proof fn law_kept_file_is_found_again(
    marks: Map<Seq<char>, FingerprintModel>,
    key: Seq<char>,
    mark: FingerprintModel,
    other: Seq<char>,
    mtime_ms: u64,
    size: u64,
)
    ensures
        mark_of(marking(marks, key, mark), key, mark.mtime_ms, mark.size) == Some(mark.object_id),
        other != key && mark_of(marking(marks, key, mark), other, mtime_ms, size) is Some
            ==> mark_of(marking(marks, key, mark), other, mtime_ms, size) == mark_of(
            marks,
            other,
            mtime_ms,
            size,
        ),
{
}

impl FingerprintCache {
    /// A cache that remembers nothing.
    pub fn new() -> (c: FingerprintCache)
        ensures
            c.deep_view() == Map::<Seq<char>, FingerprintModel>::empty(),
    {
        let c = FingerprintCache { marks: StringHashMap::new() };
        proof {
            assert(c.deep_view() =~= Map::empty());
        }
        c
    }

    /// The identifier of the content of a file whose time and size are
    /// those that are remembered.
    pub fn fingerprint_lookup(
        &self,
        work_dir: &str,
        relative: &str,
        mtime_ms: u64,
        size: u64,
    ) -> (r: Option<String>)
        ensures
            r.deep_view() == mark_of(
                self.deep_view(),
                mark_key(work_dir@, relative@),
                mtime_ms,
                size,
            ),
    {
        let key = fingerprint_key(work_dir, relative);
        match self.marks.get(key.as_str()) {
            Some(entry) => {
                if entry.mtime_ms == mtime_ms && entry.size == size {
                    Some(entry.object_id.clone())
                } else {
                    None
                }
            },
            None => None,
        }
    }

    /// Remembers the content of a file. When too much is remembered, all
    /// else is forgotten.
    pub fn fingerprint_store(
        &mut self,
        work_dir: &str,
        relative: &str,
        mtime_ms: u64,
        size: u64,
        object_id: String,
    )
        ensures
            final(self).deep_view() == marking(
                old(self).deep_view(),
                mark_key(work_dir@, relative@),
                FingerprintModel { mtime_ms, size, object_id: object_id@ },
            ),
    {
        broadcast use vstd::hash_map::group_hash_map_axioms;

        let ghost f = |e: FingerprintEntry| e.deep_view();
        proof {
            assert(self.marks@.map_values(f).dom() =~= self.marks@.dom());
        }
        if self.marks.len() >= FINGERPRINT_CACHE_MAX_ENTRIES {
            self.marks.clear();
            proof {
                assert(self.marks@.map_values(f) =~= Map::empty());
            }
        }
        let key = fingerprint_key(work_dir, relative);
        let ghost before = self.marks@;
        let entry = FingerprintEntry { mtime_ms, size, object_id };
        self.marks.insert(key, entry);
        proof {
            assert(self.marks@.map_values(f) =~= before.map_values(f).insert(
                key@,
                entry.deep_view(),
            ));
        }
    }
}

/// What is known of a file before a command runs. Without an identifier
/// its content was not kept: it was left out because it is too large or
/// binary, or the commit of the Git baseline holds it.
pub struct PendingFileState {
    pub path: String,
    pub object_id: Option<String>,
    pub skipped: bool,
    pub mtime_ms: u64,
    pub size: u64,
    pub under_git: bool,
}

/// The mathematical form of a file before a command.
pub struct PendingModel {
    pub path: Seq<char>,
    pub object_id: Option<Seq<char>>,
    pub skipped: bool,
    pub mtime_ms: u64,
    pub size: u64,
    pub under_git: bool,
}

impl DeepView for PendingFileState {
    type V = PendingModel;

    open spec fn deep_view(&self) -> PendingModel {
        PendingModel {
            path: self.path@,
            object_id: self.object_id.deep_view(),
            skipped: self.skipped,
            mtime_ms: self.mtime_ms,
            size: self.size,
            under_git: self.under_git,
        }
    }
}

/// Where the list of files comes from: a walk through the directory, the
/// Git repository that it lies in, or another machine.
#[derive(Clone, Copy, PartialEq, Eq, Structural, Debug)]
pub enum ListingSource {
    Walk,
    Git,
    Remote,
}

/// What keeping the content of a file came to: it is kept under an
/// identifier, it was left out, the file is gone, or it failed.
pub enum CopyReply {
    Kept(String),
    Skipped,
    Gone,
    Failed(StorageError),
}

/// The mathematical form of a reply.
pub enum CopyModel {
    Kept(Seq<char>),
    Skipped,
    Gone,
    Failed(ErrorModel),
}

impl DeepView for CopyReply {
    type V = CopyModel;

    open spec fn deep_view(&self) -> CopyModel {
        match self {
            CopyReply::Kept(id) => CopyModel::Kept(id@),
            CopyReply::Skipped => CopyModel::Skipped,
            CopyReply::Gone => CopyModel::Gone,
            CopyReply::Failed(e) => CopyModel::Failed(e.deep_view()),
        }
    }
}

/// A file of the list, with the reply to keeping it where that was asked
/// for.
pub struct ListedFile {
    pub path: String,
    pub mtime_ms: u64,
    pub size: u64,
    pub copied: Option<CopyReply>,
}

/// The mathematical form of a listed file.
pub struct ListedModel {
    pub path: Seq<char>,
    pub mtime_ms: u64,
    pub size: u64,
    pub copied: Option<CopyModel>,
}

impl DeepView for ListedFile {
    type V = ListedModel;

    open spec fn deep_view(&self) -> ListedModel {
        ListedModel {
            path: self.path@,
            mtime_ms: self.mtime_ms,
            size: self.size,
            copied: self.copied.deep_view(),
        }
    }
}

/// The files of a working directory. `under_git` names those whose content
/// Git knows: the committed files for a walk, the changed ones for a list
/// that comes from Git.
pub struct WorktreeListing {
    pub source: ListingSource,
    pub files: Vec<ListedFile>,
    pub under_git: Vec<String>,
}

/// The mathematical form of a listing.
pub struct WorktreeModel {
    pub source: ListingSource,
    pub files: Seq<ListedModel>,
    pub under_git: Seq<Seq<char>>,
}

impl DeepView for WorktreeListing {
    type V = WorktreeModel;

    open spec fn deep_view(&self) -> WorktreeModel {
        WorktreeModel {
            source: self.source,
            files: self.files.deep_view(),
            under_git: self.under_git.deep_view(),
        }
    }
}

/// What is made of a listed file: it must be kept first, it is gone, this
/// is known of it, or keeping it failed.
pub enum Settled {
    Ask,
    Omit,
    Keep(PendingFileState),
    Failed(StorageError),
}

/// The mathematical form of what is made of a file.
pub enum SettledModel {
    Ask,
    Omit,
    Keep(PendingModel),
    Failed(ErrorModel),
}

impl DeepView for Settled {
    type V = SettledModel;

    open spec fn deep_view(&self) -> SettledModel {
        match self {
            Settled::Ask => SettledModel::Ask,
            Settled::Omit => SettledModel::Omit,
            Settled::Keep(p) => SettledModel::Keep(p.deep_view()),
            Settled::Failed(e) => SettledModel::Failed(e.deep_view()),
        }
    }
}

/// What is made of a listed file. A file that did not change since it was
/// kept is not kept again, and neither is one that Git can give back.
pub open spec fn settled(
    source: ListingSource,
    file: ListedModel,
    under_git: bool,
    hit: Option<Seq<char>>,
) -> SettledModel {
    let state = PendingModel {
        path: file.path,
        object_id: None,
        skipped: false,
        mtime_ms: if source == ListingSource::Git {
            0
        } else {
            file.mtime_ms
        },
        size: if source == ListingSource::Git {
            0
        } else {
            file.size
        },
        under_git,
    };
    if source != ListingSource::Git && under_git {
        SettledModel::Keep(state)
    } else if source != ListingSource::Git && hit is Some {
        SettledModel::Keep(PendingModel { object_id: hit, ..state })
    } else {
        match file.copied {
            None => SettledModel::Ask,
            Some(CopyModel::Kept(id)) => SettledModel::Keep(
                PendingModel { object_id: Some(id), ..state },
            ),
            Some(CopyModel::Skipped) => SettledModel::Keep(PendingModel { skipped: true, ..state }),
            Some(CopyModel::Gone) => SettledModel::Omit,
            Some(CopyModel::Failed(e)) => SettledModel::Failed(e),
        }
    }
}

/// What is made of a listed file.
pub fn settle_file(
    source: ListingSource,
    file: &ListedFile,
    under_git: bool,
    hit: Option<String>,
) -> (r: Settled)
    ensures
        r.deep_view() == settled(source, file.deep_view(), under_git, hit.deep_view()),
{
    let by_git = source == ListingSource::Git;
    let mtime_ms: u64 = if by_git {
        0
    } else {
        file.mtime_ms
    };
    let size: u64 = if by_git {
        0
    } else {
        file.size
    };
    let path = file.path.clone();
    if !by_git && under_git {
        return Settled::Keep(
            PendingFileState { path, object_id: None, skipped: false, mtime_ms, size, under_git },
        );
    }
    if !by_git && hit.is_some() {
        return Settled::Keep(
            PendingFileState { path, object_id: hit, skipped: false, mtime_ms, size, under_git },
        );
    }
    match &file.copied {
        None => Settled::Ask,
        Some(CopyReply::Kept(id)) => {
            let kept = Some(id.clone());
            Settled::Keep(
                PendingFileState { path, object_id: kept, skipped: false, mtime_ms, size, under_git },
            )
        },
        Some(CopyReply::Skipped) => Settled::Keep(
            PendingFileState { path, object_id: None, skipped: true, mtime_ms, size, under_git },
        ),
        Some(CopyReply::Gone) => Settled::Omit,
        Some(CopyReply::Failed(e)) => Settled::Failed(e.duplicate()),
    }
}

/// The list that comes from Git: the files that changed since the commit,
/// and those that Git does not know. The content of all of them is kept.
pub open spec fn git_listing(changed: Seq<Seq<char>>, unknown: Seq<Seq<char>>) -> WorktreeModel {
    WorktreeModel {
        source: ListingSource::Git,
        files: (changed + unknown).map_values(
            |path: Seq<char>| ListedModel { path, mtime_ms: 0, size: 0, copied: None },
        ),
        under_git: changed,
    }
}

/// Adds the files of a list.
fn list_files(out: &mut Vec<ListedFile>, paths: &Vec<String>)
    ensures
        final(out).deep_view() == old(out).deep_view() + paths.deep_view().map_values(
            |path: Seq<char>| ListedModel { path, mtime_ms: 0, size: 0, copied: None },
        ),
{
    let ghost f = |path: Seq<char>| ListedModel { path, mtime_ms: 0, size: 0, copied: None };
    let ghost start = out.deep_view();
    let ghost all = paths.deep_view();
    let mut i: usize = 0;
    proof {
        assert(out.deep_view() =~= start + all.take(0).map_values(f));
    }
    while i < paths.len()
        invariant
            i <= paths@.len(),
            all == paths.deep_view(),
            f == (|path: Seq<char>| ListedModel { path, mtime_ms: 0, size: 0, copied: None }),
            out.deep_view() == start + all.take(i as int).map_values(f),
        decreases paths@.len() - i,
    {
        let ghost before = out.deep_view();
        let file = ListedFile { path: paths[i].clone(), mtime_ms: 0, size: 0, copied: None };
        out.push(file);
        proof {
            assert(all[i as int] == paths@[i as int]@);
            assert(file.deep_view() == f(all[i as int]));
            assert(out.deep_view() =~= before.push(file.deep_view()));
            assert(out.deep_view() =~= start + all.take(i + 1).map_values(f));
        }
        i += 1;
    }
    proof {
        assert(all.take(i as int) =~= all);
    }
}

/// The list that comes from Git.
pub fn capture_worktree_before_git(changed: Vec<String>, unknown: &Vec<String>) -> (r:
    WorktreeListing)
    ensures
        r.deep_view() == git_listing(changed.deep_view(), unknown.deep_view()),
{
    let mut files: Vec<ListedFile> = Vec::new();
    list_files(&mut files, &changed);
    list_files(&mut files, unknown);
    let r = WorktreeListing { source: ListingSource::Git, files, under_git: changed };
    proof {
        assert(r.deep_view().files =~= git_listing(
            changed.deep_view(),
            unknown.deep_view(),
        ).files);
    }
    r
}

/// What keeping the content of a file came to. A file that is gone by then
/// is no error.
pub open spec fn copy_outcome(kept: Result<StateModel, ErrorModel>, still_there: bool) -> CopyModel {
    match kept {
        Ok(StateModel::Object { object_id }) => CopyModel::Kept(object_id),
        Ok(_) => CopyModel::Gone,
        Err(e) => if still_there {
            CopyModel::Failed(e)
        } else {
            CopyModel::Gone
        },
    }
}

/// What keeping the content of a file came to, given the state that was
/// kept and whether the file is still there.
pub fn copy_reply(kept: Result<OriginalState, StorageError>, still_there: bool) -> (r: CopyReply)
    ensures
        r.deep_view() == copy_outcome(error::result_view(kept), still_there),
{
    match kept {
        Ok(OriginalState::Object { object_id }) => CopyReply::Kept(object_id),
        Ok(_) => CopyReply::Gone,
        Err(e) => if still_there {
            CopyReply::Failed(e)
        } else {
            CopyReply::Gone
        },
    }
}

/// How a turn of the capture of a working directory ends: there is nothing
/// to capture; something must be found out first, that is the canonical path
/// of the directory, the manifest of a checkpoint, the baseline that Git
/// tells, the list that Git gives, the list that a walk gives with the files
/// that Git knows, or the content of a file; all is captured; or it failed.
pub enum CaptureEnd {
    Nothing,
    AskDirectory,
    AskManifest { checkpoint_id: String },
    AskBaseline,
    AskGit { baseline: GitBaseline },
    AskWalk { tracked_by: Option<GitBaseline> },
    Ask { source: ListingSource, path: String },
    Done(CheckpointWorktreeCapture),
    Failed(StorageError),
}

/// The mathematical form of an end.
pub enum EndModel {
    Nothing,
    AskDirectory,
    AskManifest { checkpoint_id: Seq<char> },
    AskBaseline,
    AskGit { baseline: BaselineModel },
    AskWalk { tracked_by: Option<BaselineModel> },
    Ask { source: ListingSource, path: Seq<char> },
    Done(CaptureModel),
    Failed(ErrorModel),
}

impl DeepView for CaptureEnd {
    type V = EndModel;

    open spec fn deep_view(&self) -> EndModel {
        match self {
            CaptureEnd::Nothing => EndModel::Nothing,
            CaptureEnd::AskDirectory => EndModel::AskDirectory,
            CaptureEnd::AskManifest { checkpoint_id } => EndModel::AskManifest {
                checkpoint_id: checkpoint_id@,
            },
            CaptureEnd::AskBaseline => EndModel::AskBaseline,
            CaptureEnd::AskGit { baseline } => EndModel::AskGit { baseline: baseline.deep_view() },
            CaptureEnd::AskWalk { tracked_by } => EndModel::AskWalk {
                tracked_by: tracked_by.deep_view(),
            },
            CaptureEnd::Ask { source, path } => EndModel::Ask { source: *source, path: path@ },
            CaptureEnd::Done(c) => EndModel::Done(c.deep_view()),
            CaptureEnd::Failed(e) => EndModel::Failed(e.deep_view()),
        }
    }
}

/// A working directory as it was before a command, for the checkpoints that
/// record the command. The baseline is the one whose changes Git listed.
pub struct CheckpointWorktreeCapture {
    pub checkpoint_ids: Vec<String>,
    pub work_dir: String,
    pub baseline: Option<GitBaseline>,
    pub source: ListingSource,
    pub before_states: Vec<PendingFileState>,
}

/// The mathematical form of a capture.
pub struct CaptureModel {
    pub checkpoint_ids: Seq<Seq<char>>,
    pub work_dir: Seq<char>,
    pub baseline: Option<BaselineModel>,
    pub source: ListingSource,
    pub before_states: Seq<PendingModel>,
}

impl DeepView for CheckpointWorktreeCapture {
    type V = CaptureModel;

    open spec fn deep_view(&self) -> CaptureModel {
        CaptureModel {
            checkpoint_ids: self.checkpoint_ids.deep_view(),
            work_dir: self.work_dir@,
            baseline: self.baseline.deep_view(),
            source: self.source,
            before_states: self.before_states.deep_view(),
        }
    }
}

/// What was captured so far, and what ended it.
pub struct ScanModel {
    pub marks: Map<Seq<char>, FingerprintModel>,
    pub states: Seq<PendingModel>,
    pub stopped: Option<EndModel>,
}

/// The capture of one more file.
pub open spec fn scanned_one(
    work_dir: Seq<char>,
    listing: WorktreeModel,
    so_far: ScanModel,
    file: ListedModel,
) -> ScanModel {
    let key = mark_key(work_dir, file.path);
    let hit = mark_of(so_far.marks, key, file.mtime_ms, file.size);
    let under_git = listing.under_git.contains(file.path);
    match settled(listing.source, file, under_git, hit) {
        SettledModel::Ask => ScanModel {
            stopped: Some(EndModel::Ask { source: listing.source, path: file.path }),
            ..so_far
        },
        SettledModel::Failed(e) => ScanModel { stopped: Some(EndModel::Failed(e)), ..so_far },
        SettledModel::Omit => so_far,
        SettledModel::Keep(p) => ScanModel {
            marks: if listing.source != ListingSource::Git && hit is None && p.object_id is Some {
                marking(
                    so_far.marks,
                    key,
                    FingerprintModel {
                        mtime_ms: file.mtime_ms,
                        size: file.size,
                        object_id: p.object_id->Some_0,
                    },
                )
            } else {
                so_far.marks
            },
            states: so_far.states.push(p),
            stopped: None,
        },
    }
}

/// The capture of the first files of a list.
pub open spec fn scanned(
    work_dir: Seq<char>,
    listing: WorktreeModel,
    marks: Map<Seq<char>, FingerprintModel>,
    n: int,
) -> ScanModel
    decreases n,
{
    if n <= 0 {
        ScanModel { marks, states: Seq::empty(), stopped: None }
    } else {
        let so_far = scanned(work_dir, listing, marks, n - 1);
        if so_far.stopped is Some {
            so_far
        } else {
            scanned_one(work_dir, listing, so_far, listing.files[n - 1])
        }
    }
}

proof fn lemma_scan_stops(
    work_dir: Seq<char>,
    listing: WorktreeModel,
    marks: Map<Seq<char>, FingerprintModel>,
    i: int,
    n: int,
)
    requires
        0 <= i <= n,
        scanned(work_dir, listing, marks, i).stopped is Some,
    ensures
        scanned(work_dir, listing, marks, n) == scanned(work_dir, listing, marks, i),
    decreases n - i,
{
    if i < n {
        lemma_scan_stops(work_dir, listing, marks, i, n - 1);
    }
}

/// The scan of a list stops only where it asks or fails.
pub proof fn lemma_scan_ends(
    work_dir: Seq<char>,
    listing: WorktreeModel,
    marks: Map<Seq<char>, FingerprintModel>,
    n: int,
)
    ensures
        scanned(work_dir, listing, marks, n).stopped matches Some(end) ==> end is Ask
            || end is Failed,
    decreases n,
{
    if n > 0 {
        lemma_scan_ends(work_dir, listing, marks, n - 1);
    }
}

/// Whether a list of texts holds a text.
pub(crate) fn names_path(names: &Vec<String>, path: &str) -> (r: bool)
    ensures
        r == names.deep_view().contains(path@),
{
    let ghost all = names.deep_view();
    let wanted = text::chars_of(path);
    let mut i: usize = 0;
    while i < names.len()
        invariant
            i <= names@.len(),
            all == names.deep_view(),
            wanted@ == path@,
            forall|j: int| 0 <= j < i ==> all[j] != path@,
        decreases names@.len() - i,
    {
        proof {
            assert(all[i as int] == names@[i as int]@);
        }
        if text::equals(wanted.as_slice(), names[i].as_str()) {
            return true;
        }
        i += 1;
    }
    false
}

/// The end of the capture of a list.
pub open spec fn capture_end(
    checkpoint_ids: Seq<Seq<char>>,
    work_dir: Seq<char>,
    baseline: Option<BaselineModel>,
    listing: WorktreeModel,
    marks: Map<Seq<char>, FingerprintModel>,
) -> EndModel {
    let all = scanned(work_dir, listing, marks, listing.files.len() as int);
    match all.stopped {
        Some(end) => end,
        None => EndModel::Done(
            CaptureModel {
                checkpoint_ids,
                work_dir,
                baseline,
                source: listing.source,
                before_states: all.states,
            },
        ),
    }
}

impl FingerprintCache {
    /// Captures the files of a list. It asks for the files whose content
    /// must be kept first; given the replies, it is called again.
    pub fn capture_files(
        &mut self,
        checkpoint_ids: &Vec<String>,
        work_dir: &str,
        baseline: &Option<GitBaseline>,
        listing: &WorktreeListing,
    ) -> (r: CaptureEnd)
        ensures
            r.deep_view() == capture_end(
                checkpoint_ids.deep_view(),
                work_dir@,
                baseline.deep_view(),
                listing.deep_view(),
                old(self).deep_view(),
            ),
            final(self).deep_view() == scanned(
                work_dir@,
                listing.deep_view(),
                old(self).deep_view(),
                listing.files@.len() as int,
            ).marks,
    {
        let ghost list = listing.deep_view();
        let ghost start = self.deep_view();
        let ghost dir = work_dir@;
        let total: usize = listing.files.len();
        let mut states: Vec<PendingFileState> = Vec::new();
        let mut i: usize = 0;
        proof {
            assert(states.deep_view() =~= Seq::empty());
        }
        while i < total
            invariant
                i <= total == listing.files@.len(),
                dir == work_dir@,
                list == listing.deep_view(),
                start == old(self).deep_view(),
                scanned(dir, list, start, i as int) == (ScanModel {
                    marks: self.deep_view(),
                    states: states.deep_view(),
                    stopped: None,
                }),
            decreases total - i,
        {
            let file = &listing.files[i];
            let ghost so_far = scanned(dir, list, start, i as int);
            let ghost seen = states.deep_view();
            proof {
                assert(list.files[i as int] == listing.files@[i as int].deep_view());
                assert(scanned(dir, list, start, i + 1) == scanned_one(
                    dir,
                    list,
                    so_far,
                    list.files[i as int],
                ));
            }
            let hit = self.fingerprint_lookup(work_dir, file.path.as_str(), file.mtime_ms, file.size);
            let missed = hit.is_none();
            let under_git = names_path(&listing.under_git, file.path.as_str());
            match settle_file(listing.source, file, under_git, hit) {
                Settled::Ask => {
                    proof {
                        lemma_scan_stops(dir, list, start, i + 1, total as int);
                    }
                    return CaptureEnd::Ask { source: listing.source, path: file.path.clone() };
                },
                Settled::Failed(e) => {
                    proof {
                        lemma_scan_stops(dir, list, start, i + 1, total as int);
                    }
                    return CaptureEnd::Failed(e);
                },
                Settled::Omit => {},
                Settled::Keep(p) => {
                    if listing.source != ListingSource::Git && missed {
                        match &p.object_id {
                            Some(id) => {
                                self.fingerprint_store(
                                    work_dir,
                                    file.path.as_str(),
                                    file.mtime_ms,
                                    file.size,
                                    id.clone(),
                                );
                            },
                            None => {},
                        }
                    }
                    states.push(p);
                    proof {
                        assert(states.deep_view() =~= seen.push(p.deep_view()));
                    }
                },
            }
            i += 1;
        }
        CaptureEnd::Done(
            CheckpointWorktreeCapture {
                checkpoint_ids: copy_rows(checkpoint_ids),
                work_dir: work_dir.to_string(),
                baseline: copy_baseline(baseline),
                source: listing.source,
                before_states: states,
            },
        )
    }
}

/// A copy of a baseline.
fn copy_baseline(baseline: &Option<GitBaseline>) -> (out: Option<GitBaseline>)
    ensures
        out.deep_view() == baseline.deep_view(),
{
    match baseline {
        Some(b) => Some(b.copied()),
        None => None,
    }
}

/// A list of files that was asked for.
pub enum ListingReply {
    Unasked,
    Listed(WorktreeListing),
    Failed(StorageError),
}

/// The mathematical form of a list that was asked for.
pub enum ListingReplyModel {
    Unasked,
    Listed(WorktreeModel),
    Failed(ErrorModel),
}

impl DeepView for ListingReply {
    type V = ListingReplyModel;

    open spec fn deep_view(&self) -> ListingReplyModel {
        match self {
            ListingReply::Unasked => ListingReplyModel::Unasked,
            ListingReply::Listed(list) => ListingReplyModel::Listed(list.deep_view()),
            ListingReply::Failed(e) => ListingReplyModel::Failed(e.deep_view()),
        }
    }
}

/// What was found out so far for a capture: the canonical path of the
/// working directory; the manifests of the first checkpoints, with none for
/// one that is gone; the baseline that Git tells, if it was asked; and the
/// lists that Git and a walk through the directory give. `by_git` says
/// whether Git is consulted.
pub struct CaptureFacts {
    pub root: Option<String>,
    pub found: Vec<Option<CheckpointManifest>>,
    pub by_git: bool,
    pub detected: Option<Option<GitBaseline>>,
    pub git_listing: ListingReply,
    pub walked: ListingReply,
}

/// The mathematical form of what was found out.
pub struct CaptureFactsModel {
    pub root: Option<Seq<char>>,
    pub found: Seq<Option<ManifestModel>>,
    pub by_git: bool,
    pub detected: Option<Option<BaselineModel>>,
    pub git_listing: ListingReplyModel,
    pub walked: ListingReplyModel,
}

impl DeepView for CaptureFacts {
    type V = CaptureFactsModel;

    open spec fn deep_view(&self) -> CaptureFactsModel {
        CaptureFactsModel {
            root: self.root.deep_view(),
            found: self.found.deep_view(),
            by_git: self.by_git,
            detected: self.detected.deep_view(),
            git_listing: self.git_listing.deep_view(),
            walked: self.walked.deep_view(),
        }
    }
}

impl CaptureFacts {
    /// Nothing was found out yet.
    pub fn new(by_git: bool) -> (f: CaptureFacts)
        ensures
            f.deep_view() == (CaptureFactsModel {
                root: None,
                found: Seq::empty(),
                by_git,
                detected: None,
                git_listing: ListingReplyModel::Unasked,
                walked: ListingReplyModel::Unasked,
            }),
    {
        let f = CaptureFacts {
            root: None,
            found: Vec::new(),
            by_git,
            detected: None,
            git_listing: ListingReply::Unasked,
            walked: ListingReply::Unasked,
        };
        proof {
            assert(f.found.deep_view() =~= Seq::empty());
        }
        f
    }
}

/// A turn of a capture: how it ends, and the fingerprints behind it.
pub struct TurnModel {
    pub end: EndModel,
    pub marks: Map<Seq<char>, FingerprintModel>,
}

/// A turn that captures the files of a list.
pub open spec fn files_turn(
    ids: Seq<Seq<char>>,
    work_dir: Seq<char>,
    baseline: Option<BaselineModel>,
    listing: WorktreeModel,
    marks: Map<Seq<char>, FingerprintModel>,
) -> TurnModel {
    TurnModel {
        end: capture_end(ids, work_dir, baseline, listing, marks),
        marks: scanned(work_dir, listing, marks, listing.files.len() as int).marks,
    }
}

/// A turn of a capture by a walk. The files that Git knows under a baseline
/// are listed with the walk.
pub open spec fn walk_turn(
    ids: Seq<Seq<char>>,
    work_dir: Seq<char>,
    baseline: Option<BaselineModel>,
    walked: ListingReplyModel,
    marks: Map<Seq<char>, FingerprintModel>,
) -> TurnModel {
    match walked {
        ListingReplyModel::Unasked => TurnModel {
            end: EndModel::AskWalk { tracked_by: baseline },
            marks,
        },
        ListingReplyModel::Failed(e) => TurnModel { end: EndModel::Failed(e), marks },
        ListingReplyModel::Listed(list) => files_turn(ids, work_dir, None, list, marks),
    }
}

/// The baseline that a capture goes by: none where Git is not consulted;
/// the one that the checkpoints know, as long as it still holds; or else the
/// one that Git tells, if that was found out.
pub open spec fn baseline_in_use(
    f: CaptureFactsModel,
    root: Seq<char>,
    known: Option<BaselineModel>,
) -> Option<Option<BaselineModel>> {
    if !f.by_git {
        Some(None)
    } else {
        match known {
            Some(b) if baseline::still_holds(b, root) => Some(Some(b)),
            _ => f.detected,
        }
    }
}

/// A turn of a capture for checkpoints of which one belongs here. What Git
/// lists is captured; where Git gives no list, or its files cannot be kept,
/// the capture goes by a walk.
pub open spec fn source_turn(
    ids: Seq<Seq<char>>,
    work_dir: Seq<char>,
    f: CaptureFactsModel,
    in_use: Option<Option<BaselineModel>>,
    marks: Map<Seq<char>, FingerprintModel>,
) -> TurnModel {
    match in_use {
        None => TurnModel { end: EndModel::AskBaseline, marks },
        Some(None) => walk_turn(ids, work_dir, None, f.walked, marks),
        Some(Some(b)) => match f.git_listing {
            ListingReplyModel::Unasked => TurnModel {
                end: EndModel::AskGit { baseline: b },
                marks,
            },
            ListingReplyModel::Failed(_) => walk_turn(ids, work_dir, Some(b), f.walked, marks),
            ListingReplyModel::Listed(list) => {
                let turn = files_turn(ids, work_dir, Some(b), list, marks);
                if turn.end is Failed {
                    walk_turn(ids, work_dir, Some(b), f.walked, turn.marks)
                } else {
                    turn
                }
            },
        },
    }
}

/// A turn of a capture. The manifests are read one after the other: all of
/// them, or only up to the first that belongs here. Where none does there is nothing to capture, and nothing is listed.
pub open spec fn turn_of(
    ids: Seq<Seq<char>>,
    work_dir: Seq<char>,
    f: CaptureFactsModel,
    read_all: bool,
    belongs: bool,
    in_use: Option<Option<BaselineModel>>,
    marks: Map<Seq<char>, FingerprintModel>,
) -> TurnModel {
    if f.found.len() < ids.len() && (read_all || !belongs) {
        TurnModel {
            end: EndModel::AskManifest { checkpoint_id: ids[f.found.len() as int] },
            marks,
        }
    } else if !belongs {
        TurnModel { end: EndModel::Nothing, marks }
    } else {
        source_turn(ids, work_dir, f, in_use, marks)
    }
}

/// A turn of the capture of a working directory.
pub open spec fn capture_turn(
    ids: Seq<Seq<char>>,
    work_dir: Seq<char>,
    f: CaptureFactsModel,
    marks: Map<Seq<char>, FingerprintModel>,
) -> TurnModel {
    if ids.len() == 0 {
        TurnModel { end: EndModel::Nothing, marks }
    } else {
        match f.root {
            None => TurnModel { end: EndModel::AskDirectory, marks },
            Some(root) => {
                let here = recording::of_directory(root);
                turn_of(
                    ids,
                    work_dir,
                    f,
                    f.by_git,
                    recording::some_belongs(f.found, here),
                    baseline_in_use(f, root, baseline::first_baseline(f.found, here)),
                    marks,
                )
            },
        }
    }
}

impl FingerprintCache {
    fn capture_by_walk(
        &mut self,
        ids: &Vec<String>,
        work_dir: &str,
        baseline: &Option<GitBaseline>,
        walked: &ListingReply,
    ) -> (r: CaptureEnd)
        ensures
            (TurnModel { end: r.deep_view(), marks: final(self).deep_view() }) == walk_turn(
                ids.deep_view(),
                work_dir@,
                baseline.deep_view(),
                walked.deep_view(),
                old(self).deep_view(),
            ),
    {
        match walked {
            ListingReply::Unasked => CaptureEnd::AskWalk {
                tracked_by: copy_baseline(baseline),
            },
            ListingReply::Failed(e) => CaptureEnd::Failed(e.duplicate()),
            ListingReply::Listed(list) => self.capture_files(ids, work_dir, &None, list),
        }
    }

    /// Goes on with a capture, given whether all manifests are read, whether
    /// one of the checkpoints belongs here, and the baseline that it goes by.
    pub(crate) fn go_on(
        &mut self,
        ids: &Vec<String>,
        work_dir: &str,
        facts: &CaptureFacts,
        read_all: bool,
        belongs: bool,
        in_use: &Option<Option<GitBaseline>>,
    ) -> (r: CaptureEnd)
        ensures
            (TurnModel { end: r.deep_view(), marks: final(self).deep_view() }) == turn_of(
                ids.deep_view(),
                work_dir@,
                facts.deep_view(),
                read_all,
                belongs,
                in_use.deep_view(),
                old(self).deep_view(),
            ),
    {
        let next: usize = facts.found.len();
        if next < ids.len() && (read_all || !belongs) {
            proof {
                assert(ids.deep_view()[next as int] == ids@[next as int]@);
            }
            return CaptureEnd::AskManifest { checkpoint_id: ids[next].clone() };
        }
        if !belongs {
            return CaptureEnd::Nothing;
        }
        match in_use {
            None => CaptureEnd::AskBaseline,
            Some(chosen) => match chosen {
                None => self.capture_by_walk(ids, work_dir, chosen, &facts.walked),
                Some(b) => match &facts.git_listing {
                    ListingReply::Unasked => CaptureEnd::AskGit { baseline: b.copied() },
                    ListingReply::Failed(_) => self.capture_by_walk(
                        ids,
                        work_dir,
                        chosen,
                        &facts.walked,
                    ),
                    ListingReply::Listed(list) => {
                        match self.capture_files(ids, work_dir, chosen, list) {
                            CaptureEnd::Failed(_) => self.capture_by_walk(
                                ids,
                                work_dir,
                                chosen,
                                &facts.walked,
                            ),
                            end => end,
                        }
                    },
                },
            },
        }
    }

    /// Captures a working directory before a command runs in it, for the
    /// checkpoints that belong to it. It asks for what must be found out
    /// first; given that, it is called again. Where no checkpoint belongs to
    /// the directory, nothing is captured.
    pub fn capture_checkpoint_worktree_before(
        &mut self,
        checkpoint_ids: &Vec<String>,
        work_dir: &str,
        facts: &CaptureFacts,
    ) -> (r: CaptureEnd)
        ensures
            (TurnModel { end: r.deep_view(), marks: final(self).deep_view() }) == capture_turn(
                checkpoint_ids.deep_view(),
                work_dir@,
                facts.deep_view(),
                old(self).deep_view(),
            ),
    {
        if checkpoint_ids.len() == 0 {
            return CaptureEnd::Nothing;
        }
        match &facts.root {
            None => CaptureEnd::AskDirectory,
            Some(root) => {
                let (belongs, known) = baseline::match_checkpoints(&facts.found, root.as_str());
                let in_use = if !facts.by_git {
                    Some(None)
                } else {
                    match known {
                        Some(b) => if baseline::reuse_manifest_git_baseline(&b, root.as_str()) {
                            Some(Some(b))
                        } else {
                            copy_detected(&facts.detected)
                        },
                        None => copy_detected(&facts.detected),
                    }
                };
                self.go_on(checkpoint_ids, work_dir, facts, facts.by_git, belongs, &in_use)
            },
        }
    }
}

fn copy_detected(detected: &Option<Option<GitBaseline>>) -> (out: Option<Option<GitBaseline>>)
    ensures
        out.deep_view() == detected.deep_view(),
{
    match detected {
        Some(b) => Some(copy_baseline(b)),
        None => None,
    }
}

/// A capture comes out only where the manifest of one of the checkpoints
/// belongs to the working directory. Once all manifests were looked for and
/// none does, nothing is captured, whatever else was found out; this is no
/// error, and the fingerprints stay.
pub proof fn law_captures_only_for_checkpoints(
    ids: Seq<Seq<char>>,
    work_dir: Seq<char>,
    f: CaptureFactsModel,
    marks: Map<Seq<char>, FingerprintModel>,
)
    requires
        f.root is Some,
        f.found.len() <= ids.len(),
    ensures
        ({
            let turn = capture_turn(ids, work_dir, f, marks);
            let belongs = recording::some_belongs(
                f.found,
                recording::of_directory(f.root->Some_0),
            );
            &&& !(turn.end is Nothing || turn.end is AskManifest) ==> belongs
            &&& turn.end is Nothing ==> !belongs && f.found.len() == ids.len()
            &&& !belongs && f.found.len() == ids.len() ==> turn == (TurnModel {
                end: EndModel::Nothing,
                marks,
            })
        }),
{
    let behind = match f.git_listing {
        ListingReplyModel::Listed(list) => {
            lemma_scan_ends(work_dir, list, marks, list.files.len() as int);
            scanned(work_dir, list, marks, list.files.len() as int).marks
        },
        _ => marks,
    };
    match f.walked {
        ListingReplyModel::Listed(list) => {
            lemma_scan_ends(work_dir, list, marks, list.files.len() as int);
            lemma_scan_ends(work_dir, list, behind, list.files.len() as int);
        },
        _ => {},
    }
}

/// Every captured file is one of the list. Its content is not kept only
/// where it was left out, and where Git can give it back.
pub proof fn law_captured_files_are_listed(
    work_dir: Seq<char>,
    listing: WorktreeModel,
    marks: Map<Seq<char>, FingerprintModel>,
    n: int,
    i: int,
)
    requires
        0 <= n <= listing.files.len(),
        0 <= i < scanned(work_dir, listing, marks, n).states.len(),
    ensures
        ({
            let p = scanned(work_dir, listing, marks, n).states[i];
            &&& exists|k: int|
                0 <= k < n && (#[trigger] listing.files[k]).path == p.path
            &&& p.skipped ==> p.object_id is None
            &&& !p.skipped && p.object_id is None ==> p.under_git && listing.source
                != ListingSource::Git
        }),
    decreases n,
{
    let so_far = scanned(work_dir, listing, marks, n - 1);
    if n > 0 && so_far.stopped is None {
        if i < so_far.states.len() {
            law_captured_files_are_listed(work_dir, listing, marks, n - 1, i);
            let p = so_far.states[i];
            let k = choose|k: int| 0 <= k < n - 1 && (#[trigger] listing.files[k]).path == p.path;
            assert(scanned(work_dir, listing, marks, n).states[i] == p);
            assert(listing.files[k].path == p.path);
        } else {
            let p = scanned(work_dir, listing, marks, n).states[i];
            assert(listing.files[n - 1].path == p.path);
        }
    } else if n > 0 {
        law_captured_files_are_listed(work_dir, listing, marks, n - 1, i);
        let p = so_far.states[i];
        let k = choose|k: int| 0 <= k < n - 1 && (#[trigger] listing.files[k]).path == p.path;
        assert(listing.files[k].path == p.path);
    }
}

} // verus!
