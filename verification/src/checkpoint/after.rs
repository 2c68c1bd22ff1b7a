//! What a command changed in a working directory.

use vstd::prelude::*;
use crate::checkpoint::before::{
    names_path, CaptureModel, CheckpointWorktreeCapture, ListingSource, PendingFileState, PendingModel,
};
use crate::checkpoint::content;
use crate::checkpoint::content::object_id;
use crate::checkpoint::manifest;
use crate::checkpoint::manifest::{
    CheckpointManifest, EntryModel, ManifestModel, OriginalState, StateModel,
};
use crate::checkpoint::paths;
use crate::checkpoint::paths::should_skip_relative;
use crate::checkpoint::sight::{Stored, StoredModel};
use crate::error;
use crate::error::{ErrorModel, StorageError};
use crate::rows::Copied;
use crate::text;

verus! {

/// What is at a path.
#[derive(Clone, Copy, PartialEq, Eq, Structural, Debug)]
pub struct NodeStat {
    pub mtime_ms: u64,
    pub size: u64,
    pub is_file: bool,
    pub is_dir: bool,
}

impl DeepView for NodeStat {
    type V = NodeStat;

    open spec fn deep_view(&self) -> NodeStat {
        *self
    }
}

/// The state of a file after the command, or why it cannot be told.
pub enum StateReply {
    Is(OriginalState),
    Failed(StorageError),
}

/// The mathematical form of a reply.
pub enum StateReplyModel {
    Is(StateModel),
    Failed(ErrorModel),
}

impl DeepView for StateReply {
    type V = StateReplyModel;

    open spec fn deep_view(&self) -> StateReplyModel {
        match self {
            StateReply::Is(s) => StateReplyModel::Is(s.deep_view()),
            StateReply::Failed(e) => StateReplyModel::Failed(e.deep_view()),
        }
    }
}

/// What is seen at a path after the command: what is there, whether Git
/// lists it as changed since the baseline, and the replies to what was
/// asked about it.
pub struct Observed {
    pub path: String,
    pub stat: Option<NodeStat>,
    pub in_diff: bool,
    pub committed: Option<Stored>,
    pub state: Option<StateReply>,
}

/// The mathematical form of what is seen.
pub struct ObservedModel {
    pub path: Seq<char>,
    pub stat: Option<NodeStat>,
    pub in_diff: bool,
    pub committed: Option<StoredModel>,
    pub state: Option<StateReplyModel>,
}

impl DeepView for Observed {
    type V = ObservedModel;

    open spec fn deep_view(&self) -> ObservedModel {
        ObservedModel {
            path: self.path@,
            stat: self.stat,
            in_diff: self.in_diff,
            committed: self.committed.deep_view(),
            state: self.state.deep_view(),
        }
    }
}

/// What is made of a path: the content of the baseline or the state of the
/// file must be told first, nothing changed, it changed, or that cannot be
/// told.
pub enum Verdict {
    AskCommitted,
    AskState,
    Same,
    Changed { original: OriginalState, expected: OriginalState },
    Failed(StorageError),
}

/// The mathematical form of a verdict.
pub enum VerdictModel {
    AskCommitted,
    AskState,
    Same,
    Changed { original: StateModel, expected: StateModel },
    Failed(ErrorModel),
}

impl DeepView for Verdict {
    type V = VerdictModel;

    open spec fn deep_view(&self) -> VerdictModel {
        match self {
            Verdict::AskCommitted => VerdictModel::AskCommitted,
            Verdict::AskState => VerdictModel::AskState,
            Verdict::Same => VerdictModel::Same,
            Verdict::Changed { original, expected } => VerdictModel::Changed {
                original: original.deep_view(),
                expected: expected.deep_view(),
            },
            Verdict::Failed(e) => VerdictModel::Failed(e.deep_view()),
        }
    }
}

/// The verdict on a path that changed.
pub open spec fn changed_from(original: StateModel, state: Option<StateReplyModel>) -> VerdictModel {
    match state {
        None => VerdictModel::AskState,
        Some(StateReplyModel::Failed(e)) => VerdictModel::Failed(e),
        Some(StateReplyModel::Is(expected)) => VerdictModel::Changed { original, expected },
    }
}

/// The verdict on a path that changed.
fn change_from(original: OriginalState, state: &Option<StateReply>) -> (r: Verdict)
    ensures
        r.deep_view() == changed_from(original.deep_view(), state.deep_view()),
{
    match state {
        None => Verdict::AskState,
        Some(StateReply::Failed(e)) => Verdict::Failed(e.duplicate()),
        Some(StateReply::Is(expected)) => Verdict::Changed { original, expected: expected.copied() },
    }
}

/// Whether a file has the time and size that it had before.
pub open spec fn untouched(stat: Option<NodeStat>, before: PendingModel) -> bool {
    match stat {
        Some(s) => s.mtime_ms == before.mtime_ms && s.size == before.size,
        None => false,
    }
}

/// Whether something is there, and is a file.
pub open spec fn is_file(stat: Option<NodeStat>) -> bool {
    match stat {
        Some(s) => s.is_file,
        None => false,
    }
}

/// The message for a file whose content was not kept.
pub open spec fn not_kept() -> Seq<char> {
    "Cannot materialize an original from a skipped pending state"@
}

/// The verdict on a file whose content was kept before the command.
pub open spec fn judged_kept(
    source: ListingSource,
    before: PendingModel,
    o: ObservedModel,
) -> VerdictModel {
    if untouched(o.stat, before) {
        VerdictModel::Same
    } else {
        match before.object_id {
            None => VerdictModel::Failed(error::failure(not_kept())),
            Some(id) => {
                let original = StateModel::Object { object_id: id };
                let sizes_differ = source == ListingSource::Remote && o.stat is Some
                    && o.stat->Some_0.size != before.size;
                if is_file(o.stat) && !sizes_differ && o.state == Some(
                    StateReplyModel::Is(original),
                ) {
                    VerdictModel::Same
                } else {
                    changed_from(original, o.state)
                }
            },
        }
    }
}

/// The verdict on a file that Git can give back.
pub open spec fn judged_committed(
    has_git: bool,
    before: PendingModel,
    o: ObservedModel,
) -> VerdictModel {
    match o.stat {
        None => changed_from(StateModel::Git, o.state),
        Some(s) => if untouched(o.stat, before) || s.is_dir || !has_git {
            VerdictModel::Same
        } else {
            match o.committed {
                None => VerdictModel::AskCommitted,
                Some(StoredModel::Failed(e)) => VerdictModel::Failed(e),
                Some(StoredModel::Absent) => if s.is_file {
                    changed_from(StateModel::Missing, o.state)
                } else {
                    VerdictModel::Same
                },
                Some(StoredModel::Content(bytes)) => if o.state == Some(
                    StateReplyModel::Is(
                        StateModel::Object { object_id: content::content_id(bytes) },
                    ),
                ) {
                    VerdictModel::Same
                } else {
                    changed_from(StateModel::Git, o.state)
                },
            }
        },
    }
}

/// The verdict on a path: whether the command changed it, and from what. A
/// file whose content was left out before cannot be given back and counts
/// as unchanged.
pub open spec fn judged(
    source: ListingSource,
    has_git: bool,
    before: Option<PendingModel>,
    o: ObservedModel,
) -> VerdictModel {
    match before {
        Some(p) => if p.skipped {
            VerdictModel::Same
        } else if source != ListingSource::Git && p.under_git {
            judged_committed(has_git, p, o)
        } else {
            judged_kept(source, p, o)
        },
        None => if o.in_diff {
            if o.stat is None {
                changed_from(StateModel::Git, o.state)
            } else {
                VerdictModel::Same
            }
        } else if is_file(o.stat) {
            changed_from(StateModel::Missing, o.state)
        } else {
            VerdictModel::Same
        },
    }
}

/// Whether a file is, as was replied, in a state with the given content.
fn is_state(state: &Option<StateReply>, id: &str) -> (r: bool)
    ensures
        r == (state.deep_view() == Some(
            StateReplyModel::Is(StateModel::Object { object_id: id@ }),
        )),
{
    match state {
        Some(StateReply::Is(OriginalState::Object { object_id })) => {
            let wanted = text::chars_of(id);
            text::equals(wanted.as_slice(), object_id.as_str())
        },
        _ => false,
    }
}

/// Whether a file has the time and size that it had before.
fn is_untouched(stat: Option<NodeStat>, before: &PendingFileState) -> (r: bool)
    ensures
        r == untouched(stat, before.deep_view()),
{
    match stat {
        Some(s) => s.mtime_ms == before.mtime_ms && s.size == before.size,
        None => false,
    }
}

/// Whether something is there, and is a file.
fn has_file(stat: Option<NodeStat>) -> (r: bool)
    ensures
        r == is_file(stat),
{
    match stat {
        Some(s) => s.is_file,
        None => false,
    }
}

/// The verdict on a file whose content was kept before the command.
fn judge_kept(source: ListingSource, before: &PendingFileState, o: &Observed) -> (r: Verdict)
    ensures
        r.deep_view() == judged_kept(source, before.deep_view(), o.deep_view()),
{
    if is_untouched(o.stat, before) {
        return Verdict::Same;
    }
    match &before.object_id {
        None => Verdict::Failed(
            StorageError::from_reason("Cannot materialize an original from a skipped pending state"),
        ),
        Some(id) => {
            let sizes_differ = source == ListingSource::Remote && match o.stat {
                Some(s) => s.size != before.size,
                None => false,
            };
            if has_file(o.stat) && !sizes_differ && is_state(&o.state, id.as_str()) {
                return Verdict::Same;
            }
            change_from(OriginalState::Object { object_id: id.clone() }, &o.state)
        },
    }
}

/// The verdict on a file that Git can give back.
fn judge_committed(has_git: bool, before: &PendingFileState, o: &Observed) -> (r: Verdict)
    ensures
        r.deep_view() == judged_committed(has_git, before.deep_view(), o.deep_view()),
{
    match o.stat {
        None => change_from(OriginalState::Git, &o.state),
        Some(s) => {
            if is_untouched(o.stat, before) || s.is_dir || !has_git {
                return Verdict::Same;
            }
            match &o.committed {
                None => Verdict::AskCommitted,
                Some(Stored::Failed(e)) => Verdict::Failed(e.duplicate()),
                Some(Stored::Absent) => {
                    if s.is_file {
                        change_from(OriginalState::Missing, &o.state)
                    } else {
                        Verdict::Same
                    }
                },
                Some(Stored::Content(bytes)) => {
                    let id = object_id(bytes.as_slice());
                    if is_state(&o.state, id.as_str()) {
                        return Verdict::Same;
                    }
                    change_from(OriginalState::Git, &o.state)
                },
            }
        },
    }
}

/// What was known of a path before the command.
pub open spec fn state_before(states: Seq<PendingModel>, path: Seq<char>) -> Option<PendingModel>
    decreases states.len(),
{
    if states.len() == 0 {
        None
    } else if states.last().path == path {
        Some(states.last())
    } else {
        state_before(states.drop_last(), path)
    }
}

/// The verdict on a path.
pub open spec fn verdict(c: CaptureModel, has_git: bool, o: ObservedModel) -> VerdictModel {
    judged(c.source, has_git, state_before(c.before_states, o.path), o)
}

impl CheckpointWorktreeCapture {
    /// What was known of a path before the command.
    fn find_before(&self, path: &str) -> (r: Option<&PendingFileState>)
        ensures
            match (r, state_before(self.deep_view().before_states, path@)) {
                (Some(p), Some(q)) => p.deep_view() == q,
                (None, None) => true,
                _ => false,
            },
    {
        let ghost all = self.before_states.deep_view();
        let wanted = text::chars_of(path);
        let mut i: usize = self.before_states.len();
        proof {
            assert(all.take(i as int) =~= all);
        }
        while i > 0
            invariant
                i <= self.before_states@.len(),
                all == self.before_states.deep_view(),
                wanted@ == path@,
                state_before(all, path@) == state_before(all.take(i as int), path@),
            decreases i,
        {
            proof {
                assert(all.take(i as int).last() == all[i - 1]);
                assert(all.take(i as int).drop_last() =~= all.take(i - 1));
                assert(all[i - 1] == self.before_states@[i - 1].deep_view());
            }
            if text::equals(wanted.as_slice(), self.before_states[i - 1].path.as_str()) {
                return Some(&self.before_states[i - 1]);
            }
            i -= 1;
        }
        None
    }

    /// The verdict on a path: whether the command changed it, and from what,
    /// or what must be told first.
    pub fn judge(&self, has_git: bool, o: &Observed) -> (r: Verdict)
        ensures
            r.deep_view() == verdict(self.deep_view(), has_git, o.deep_view()),
    {
        match self.find_before(o.path.as_str()) {
            Some(p) => {
                if p.skipped {
                    Verdict::Same
                } else if self.source != ListingSource::Git && p.under_git {
                    judge_committed(has_git, p, o)
                } else {
                    judge_kept(self.source, p, o)
                }
            },
            None => {
                if o.in_diff {
                    if o.stat.is_none() {
                        change_from(OriginalState::Git, &o.state)
                    } else {
                        Verdict::Same
                    }
                } else if has_file(o.stat) {
                    change_from(OriginalState::Missing, &o.state)
                } else {
                    Verdict::Same
                }
            },
        }
    }
}

/// How recording a command ends: something must be told first, all is
/// recorded (and the manifest changed, or did not), or it failed.
pub enum RecordEnd {
    AskCommitted { path: String },
    AskState { path: String },
    Done { changed: bool },
    Failed(StorageError),
}

/// The mathematical form of an end.
pub enum RecordEndModel {
    AskCommitted { path: Seq<char> },
    AskState { path: Seq<char> },
    Done { changed: bool },
    Failed(ErrorModel),
}

impl DeepView for RecordEnd {
    type V = RecordEndModel;

    open spec fn deep_view(&self) -> RecordEndModel {
        match self {
            RecordEnd::AskCommitted { path } => RecordEndModel::AskCommitted { path: path@ },
            RecordEnd::AskState { path } => RecordEndModel::AskState { path: path@ },
            RecordEnd::Done { changed } => RecordEndModel::Done { changed: *changed },
            RecordEnd::Failed(e) => RecordEndModel::Failed(e.deep_view()),
        }
    }
}

/// The entries that were recorded so far, and how it stands.
pub struct RecordModel {
    pub entries: Seq<EntryModel>,
    pub end: RecordEndModel,
}

/// The recording of one more path.
pub open spec fn recorded_one(
    c: CaptureModel,
    has_git: bool,
    so_far: RecordModel,
    o: ObservedModel,
) -> RecordModel {
    if paths::skips(o.path) {
        so_far
    } else {
        match verdict(c, has_git, o) {
            VerdictModel::AskCommitted => RecordModel {
                end: RecordEndModel::AskCommitted { path: o.path },
                ..so_far
            },
            VerdictModel::AskState => RecordModel {
                end: RecordEndModel::AskState { path: o.path },
                ..so_far
            },
            VerdictModel::Failed(e) => RecordModel { end: RecordEndModel::Failed(e), ..so_far },
            VerdictModel::Same => so_far,
            VerdictModel::Changed { original, expected } => RecordModel {
                entries: manifest::captured(so_far.entries, o.path, original, expected),
                end: RecordEndModel::Done { changed: true },
            },
        }
    }
}

/// The recording of the first paths.
pub open spec fn recorded_all(
    c: CaptureModel,
    has_git: bool,
    entries: Seq<EntryModel>,
    seen: Seq<ObservedModel>,
    n: int,
) -> RecordModel
    decreases n,
{
    if n <= 0 {
        RecordModel { entries, end: RecordEndModel::Done { changed: false } }
    } else {
        let so_far = recorded_all(c, has_git, entries, seen, n - 1);
        if so_far.end is Done {
            recorded_one(c, has_git, so_far, seen[n - 1])
        } else {
            so_far
        }
    }
}

proof fn lemma_record_stops(
    c: CaptureModel,
    has_git: bool,
    entries: Seq<EntryModel>,
    seen: Seq<ObservedModel>,
    i: int,
    n: int,
)
    requires
        0 <= i <= n,
        !(recorded_all(c, has_git, entries, seen, i).end is Done),
    ensures
        recorded_all(c, has_git, entries, seen, n) == recorded_all(c, has_git, entries, seen, i),
    decreases n - i,
{
    if i < n {
        lemma_record_stops(c, has_git, entries, seen, i, n - 1);
    }
}

impl CheckpointManifest {
    /// Records the files that a command changed, unless the manifest belongs
    /// to another directory: then it stays as it is. Every path that was
    /// known before the command, or is there after it, is to be seen.
    pub fn record_checkpoint_worktree_after(
        &mut self,
        root: &str,
        capture: &CheckpointWorktreeCapture,
        seen: &Vec<Observed>,
    ) -> (r: RecordEnd)
        ensures
            ({
                let all = recorded_all(
                    capture.deep_view(),
                    old(self).git is Some,
                    old(self).deep_view().entries,
                    seen.deep_view(),
                    seen@.len() as int,
                );
                if manifest::same_path(root@, old(self).work_dir@) {
                    &&& r.deep_view() == all.end
                    &&& final(self).deep_view() == ManifestModel {
                        entries: all.entries,
                        ..old(self).deep_view()
                    }
                } else {
                    &&& r.deep_view() == RecordEndModel::Done { changed: false }
                    &&& *final(self) == *old(self)
                }
            }),
    {
        match self.validate_manifest_work_dir(root) {
            Ok(_) => self.record_changes(capture, seen),
            Err(_) => RecordEnd::Done { changed: false },
        }
    }

    /// Records the files that a command changed. Every path that was known
    /// before the command, or is there after it, is to be seen.
    pub(crate) fn record_changes(
        &mut self,
        capture: &CheckpointWorktreeCapture,
        seen: &Vec<Observed>,
    ) -> (r: RecordEnd)
        ensures
            ({
                let all = recorded_all(
                    capture.deep_view(),
                    old(self).git is Some,
                    old(self).deep_view().entries,
                    seen.deep_view(),
                    seen@.len() as int,
                );
                &&& r.deep_view() == all.end
                &&& final(self).deep_view() == ManifestModel {
                    entries: all.entries,
                    ..old(self).deep_view()
                }
            }),
    {
        let ghost c = capture.deep_view();
        let ghost start = self.deep_view();
        let ghost all = seen.deep_view();
        let has_git = self.git.is_some();
        let mut changed = false;
        let total: usize = seen.len();
        let mut i: usize = 0;
        while i < total
            invariant
                i <= total == seen@.len(),
                c == capture.deep_view(),
                all == seen.deep_view(),
                start == old(self).deep_view(),
                has_git == old(self).git is Some,
                self.deep_view() == (ManifestModel { entries: self.deep_view().entries, ..start }),
                recorded_all(c, has_git, start.entries, all, i as int) == (RecordModel {
                    entries: self.deep_view().entries,
                    end: RecordEndModel::Done { changed },
                }),
            decreases total - i,
        {
            let o = &seen[i];
            proof {
                assert(all[i as int] == seen@[i as int].deep_view());
                assert(recorded_all(c, has_git, start.entries, all, i + 1) == recorded_one(
                    c,
                    has_git,
                    recorded_all(c, has_git, start.entries, all, i as int),
                    all[i as int],
                ));
            }
            if !should_skip_relative(o.path.as_str()) {
                match capture.judge(has_git, o) {
                    Verdict::Same => {},
                    Verdict::AskCommitted => {
                        proof {
                            lemma_record_stops(c, has_git, start.entries, all, i + 1, total as int);
                        }
                        return RecordEnd::AskCommitted { path: o.path.clone() };
                    },
                    Verdict::AskState => {
                        proof {
                            lemma_record_stops(c, has_git, start.entries, all, i + 1, total as int);
                        }
                        return RecordEnd::AskState { path: o.path.clone() };
                    },
                    Verdict::Failed(e) => {
                        proof {
                            lemma_record_stops(c, has_git, start.entries, all, i + 1, total as int);
                        }
                        return RecordEnd::Failed(e);
                    },
                    Verdict::Changed { original, expected } => {
                        self.capture_entry(o.path.as_str(), original, expected);
                        changed = true;
                    },
                }
            }
            i += 1;
        }
        RecordEnd::Done { changed }
    }
}

/// Whether a file, as it was seen, holds what it held before the command:
/// what was kept of it or, for a file that Git can give back, what the
/// commit holds.
pub open spec fn holds_the_same(
    source: ListingSource,
    has_git: bool,
    before: PendingModel,
    o: ObservedModel,
) -> bool {
    if source != ListingSource::Git && before.under_git {
        has_git && o.stat is Some && (o.committed matches Some(StoredModel::Content(bytes))
            && o.state == Some(
            StateReplyModel::Is(StateModel::Object { object_id: content::content_id(bytes) }),
        ))
    } else {
        &&& is_file(o.stat)
        &&& source == ListingSource::Remote ==> o.stat->Some_0.size == before.size
        &&& before.object_id is Some
        &&& o.state == Some(
            StateReplyModel::Is(StateModel::Object { object_id: before.object_id->Some_0 }),
        )
    }
}

/// A path at which nothing changed is not recorded: where a file still has
/// its time and size, or only they changed and it still holds what it held,
/// the entries stay as they are.
pub proof fn law_unchanged_files_are_not_recorded(
    c: CaptureModel,
    has_git: bool,
    so_far: RecordModel,
    o: ObservedModel,
    before: PendingModel,
)
    requires
        state_before(c.before_states, o.path) == Some(before),
        untouched(o.stat, before) || holds_the_same(c.source, has_git, before, o),
    ensures
        recorded_one(c, has_git, so_far, o) == so_far,
{
}

/// Recording a command leaves every entry in its place, with the path and
/// the state that the file had first, and adds entries only for paths that
/// were seen.
pub proof fn law_recording_only_adds(
    c: CaptureModel,
    has_git: bool,
    entries: Seq<EntryModel>,
    seen: Seq<ObservedModel>,
    n: int,
)
    requires
        0 <= n <= seen.len(),
    ensures
        ({
            let now = recorded_all(c, has_git, entries, seen, n).entries;
            &&& entries.len() <= now.len()
            &&& forall|i: int|
                0 <= i < entries.len() ==> (#[trigger] now[i]).path == entries[i].path
                    && now[i].original == entries[i].original
            &&& forall|i: int|
                entries.len() <= i < now.len() ==> (exists|k: int|
                    0 <= k < n && (#[trigger] seen[k]).path == now[i].path) && !paths::skips(
                    (#[trigger] now[i]).path,
                )
        }),
    decreases n,
{
    if n > 0 {
        law_recording_only_adds(c, has_git, entries, seen, n - 1);
        let so_far = recorded_all(c, has_git, entries, seen, n - 1);
        let now = recorded_all(c, has_git, entries, seen, n).entries;
        let before = so_far.entries;
        let o = seen[n - 1];
        manifest::lemma_entry_index(before, o.path);
        assert forall|i: int| entries.len() <= i < now.len() implies (exists|k: int|
            0 <= k < n && (#[trigger] seen[k]).path == now[i].path) && !paths::skips(
            (#[trigger] now[i]).path,
        ) by {
            if i < before.len() {
                assert(now[i].path == before[i].path);
                let k = choose|k: int|
                    0 <= k < n - 1 && (#[trigger] seen[k]).path == before[i].path;
                assert(seen[k].path == now[i].path);
            } else {
                assert(seen[n - 1].path == now[i].path);
            }
        }
    }
}

/// The entry of a file is not touched by what is seen at other paths.
proof fn lemma_unseen_entry_stays(
    c: CaptureModel,
    has_git: bool,
    entries: Seq<EntryModel>,
    seen: Seq<ObservedModel>,
    n: int,
    path: Seq<char>,
)
    requires
        0 <= n <= seen.len(),
        forall|i: int| 0 <= i < n ==> (#[trigger] seen[i]).path != path,
    ensures
        manifest::entry_of(recorded_all(c, has_git, entries, seen, n).entries, path)
            == manifest::entry_of(entries, path),
    decreases n,
{
    if n > 0 {
        lemma_unseen_entry_stays(c, has_git, entries, seen, n - 1, path);
        let so_far = recorded_all(c, has_git, entries, seen, n - 1);
        let o = seen[n - 1];
        match verdict(c, has_git, o) {
            VerdictModel::Changed { original, expected } => {
                manifest::lemma_captured(so_far.entries, o.path, original, expected, path);
            },
            _ => {},
        }
    }
}

/// Whether no path is seen twice.
pub open spec fn seen_once(seen: Seq<ObservedModel>) -> bool {
    forall|i: int, j: int|
        0 <= i < j < seen.len() ==> (#[trigger] seen[i]).path != (#[trigger] seen[j]).path
}

/// No change is lost: once all is recorded, every file that was seen to have
/// changed has an entry. It holds what the command left behind, and what the
/// file held before the command unless an earlier change was recorded.
pub proof fn law_changed_files_are_recorded(
    c: CaptureModel,
    has_git: bool,
    entries: Seq<EntryModel>,
    seen: Seq<ObservedModel>,
    n: int,
    k: int,
    original: StateModel,
    expected: StateModel,
)
    requires
        0 <= k < n <= seen.len(),
        seen_once(seen),
        recorded_all(c, has_git, entries, seen, n).end is Done,
        seen[k].path.len() > 0,
        !paths::skips(seen[k].path),
        verdict(c, has_git, seen[k]) == (VerdictModel::Changed { original, expected }),
    ensures
        manifest::entry_of(recorded_all(c, has_git, entries, seen, n).entries, seen[k].path)
            == Some(
            EntryModel {
                path: seen[k].path,
                original: match manifest::original_of(entries, seen[k].path) {
                    Some(first) => first,
                    None => original,
                },
                expected: Some(expected),
            },
        ),
    decreases n,
{
    let so_far = recorded_all(c, has_git, entries, seen, n - 1);
    let path = seen[k].path;
    if k == n - 1 {
        lemma_unseen_entry_stays(c, has_git, entries, seen, n - 1, path);
        manifest::lemma_entry_index(so_far.entries, path);
        manifest::lemma_captured(so_far.entries, path, original, expected, path);
    } else {
        law_changed_files_are_recorded(c, has_git, entries, seen, n - 1, k, original, expected);
        let o = seen[n - 1];
        assert(o.path != path);
        match verdict(c, has_git, o) {
            VerdictModel::Changed { original: first, expected: last } => {
                manifest::lemma_captured(so_far.entries, o.path, first, last, path);
            },
            _ => {},
        }
    }
}

/// A list of paths with those of another list that it does not hold yet.
pub open spec fn with_new(paths: Seq<Seq<char>>, more: Seq<Seq<char>>) -> Seq<Seq<char>>
    decreases more.len(),
{
    if more.len() == 0 {
        paths
    } else {
        let so_far = with_new(paths, more.drop_last());
        if so_far.contains(more.last()) {
            so_far
        } else {
            so_far.push(more.last())
        }
    }
}

/// The paths that a command may have changed: those that were known before
/// it, and those that were found after it.
pub open spec fn candidates(c: CaptureModel, found: Seq<Seq<char>>) -> Seq<Seq<char>> {
    with_new(
        with_new(Seq::empty(), c.before_states.map_values(|s: PendingModel| s.path)),
        found,
    )
}

/// Adds a path that a list does not hold yet.
fn add_new(out: &mut Vec<String>, path: &str)
    ensures
        final(out).deep_view() == (if old(out).deep_view().contains(path@) {
            old(out).deep_view()
        } else {
            old(out).deep_view().push(path@)
        }),
{
    if !names_path(&*out, path) {
        let ghost before = out.deep_view();
        out.push(path.to_string());
        proof {
            assert(out.deep_view() =~= before.push(path@));
        }
    }
}

impl CheckpointWorktreeCapture {
    /// The paths that a command may have changed, each of them once.
    pub fn candidates(&self, found: &Vec<String>) -> (out: Vec<String>)
        ensures
            out.deep_view() == candidates(self.deep_view(), found.deep_view()),
    {
        let ghost known = self.deep_view().before_states.map_values(|s: PendingModel| s.path);
        let ghost all = found.deep_view();
        let mut out: Vec<String> = Vec::new();
        let mut i: usize = 0;
        proof {
            assert(known.take(0) =~= Seq::empty());
            assert(out.deep_view() =~= Seq::empty());
        }
        while i < self.before_states.len()
            invariant
                i <= self.before_states@.len(),
                known == self.deep_view().before_states.map_values(|s: PendingModel| s.path),
                out.deep_view() == with_new(Seq::empty(), known.take(i as int)),
            decreases self.before_states@.len() - i,
        {
            proof {
                assert(known[i as int] == self.before_states@[i as int].path@);
                assert(known.take(i + 1).drop_last() =~= known.take(i as int));
            }
            add_new(&mut out, self.before_states[i].path.as_str());
            i += 1;
        }
        proof {
            assert(known.take(i as int) =~= known);
            assert(all.take(0) =~= Seq::empty());
        }
        let ghost first = out.deep_view();
        let mut k: usize = 0;
        while k < found.len()
            invariant
                k <= found@.len(),
                all == found.deep_view(),
                out.deep_view() == with_new(first, all.take(k as int)),
            decreases found@.len() - k,
        {
            proof {
                assert(all[k as int] == found@[k as int]@);
                assert(all.take(k + 1).drop_last() =~= all.take(k as int));
            }
            add_new(&mut out, found[k].as_str());
            k += 1;
        }
        proof {
            assert(all.take(k as int) =~= all);
        }
        out
    }
}

proof fn lemma_with_new(paths: Seq<Seq<char>>, more: Seq<Seq<char>>, path: Seq<char>)
    requires
        paths.no_duplicates(),
    ensures
        with_new(paths, more).no_duplicates(),
        with_new(paths, more).contains(path) <==> paths.contains(path) || more.contains(path),
    decreases more.len(),
{
    if more.len() > 0 {
        let front = more.drop_last();
        lemma_with_new(paths, front, path);
        let so_far = with_new(paths, front);
        assert(more =~= front.push(more.last()));
        assert(front.push(more.last()).contains(path) <==> front.contains(path) || path
            == more.last()) by {
            if front.contains(path) {
                let i = choose|i: int| 0 <= i < front.len() && front[i] == path;
                assert(more[i] == path);
            }
            if path == more.last() {
                assert(more[more.len() - 1] == path);
            }
            if more.contains(path) {
                let i = choose|i: int| 0 <= i < more.len() && more[i] == path;
                if i < front.len() {
                    assert(front[i] == path);
                }
            }
        }
        let now = so_far.push(more.last());
        assert(now.contains(path) <==> so_far.contains(path) || path == more.last()) by {
            if so_far.contains(path) {
                let i = choose|i: int| 0 <= i < so_far.len() && so_far[i] == path;
                assert(now[i] == path);
            }
            if path == more.last() {
                assert(now[so_far.len() as int] == path);
            }
        }
    }
}

/// Every path is looked at that was known before the command or is found
/// after it, and none twice: files that were added, changed or deleted are
/// all among them.
pub proof fn law_every_path_is_looked_at(c: CaptureModel, found: Seq<Seq<char>>, path: Seq<char>)
    ensures
        candidates(c, found).no_duplicates(),
        candidates(c, found).contains(path) <==> state_before(c.before_states, path) is Some
            || found.contains(path),
{
    let known = c.before_states.map_values(|s: PendingModel| s.path);
    lemma_with_new(Seq::empty(), known, path);
    lemma_with_new(with_new(Seq::empty(), known), found, path);
    lemma_state_before(c.before_states, path);
}

proof fn lemma_state_before(states: Seq<PendingModel>, path: Seq<char>)
    ensures
        state_before(states, path) is Some <==> states.map_values(
            |s: PendingModel| s.path,
        ).contains(path),
    decreases states.len(),
{
    let known = states.map_values(|s: PendingModel| s.path);
    if states.len() > 0 {
        let front = states.drop_last();
        let before = front.map_values(|s: PendingModel| s.path);
        lemma_state_before(front, path);
        if states.last().path == path {
            assert(known[states.len() - 1] == path);
        } else if before.contains(path) {
            let i = choose|i: int| 0 <= i < before.len() && before[i] == path;
            assert(known[i] == path);
        } else if known.contains(path) {
            let i = choose|i: int| 0 <= i < known.len() && known[i] == path;
            assert(before[i] == path);
        }
    }
}

} // verus!
