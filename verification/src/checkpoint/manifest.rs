//! The manifest of a checkpoint: which files were changed since, what they
//! held before, and what the change left behind.

use vstd::prelude::*;
use crate::checkpoint::paths;
use crate::checkpoint::paths::{components_of, should_skip_manifest_path, should_skip_relative};
use crate::error;
use crate::error::StorageError;
use crate::rows::Copied;
use crate::text;

verus! {

/// The format of the manifests that are read and written.
pub const MANIFEST_VERSION: u32 = 2;

/// What a file held: nothing, because there was none; the content kept
/// under an identifier; or what the commit of the Git baseline holds.
pub enum OriginalState {
    Missing,
    Object { object_id: String },
    Git,
}

/// The mathematical form of a state.
pub enum StateModel {
    Missing,
    Object { object_id: Seq<char> },
    Git,
}

impl DeepView for OriginalState {
    type V = StateModel;

    open spec fn deep_view(&self) -> StateModel {
        match self {
            OriginalState::Missing => StateModel::Missing,
            OriginalState::Object { object_id } => StateModel::Object { object_id: object_id@ },
            OriginalState::Git => StateModel::Git,
        }
    }
}

impl Copied for OriginalState {
    fn copied(&self) -> (out: Self) {
        match self {
            OriginalState::Missing => OriginalState::Missing,
            OriginalState::Object { object_id } => OriginalState::Object {
                object_id: object_id.clone(),
            },
            OriginalState::Git => OriginalState::Git,
        }
    }
}

/// The commit that a checkpoint was made on.
pub struct GitBaseline {
    pub repository_root: String,
    pub work_dir_prefix: String,
    pub head: String,
}

/// The mathematical form of a baseline.
pub struct BaselineModel {
    pub repository_root: Seq<char>,
    pub work_dir_prefix: Seq<char>,
    pub head: Seq<char>,
}

impl DeepView for GitBaseline {
    type V = BaselineModel;

    open spec fn deep_view(&self) -> BaselineModel {
        BaselineModel {
            repository_root: self.repository_root@,
            work_dir_prefix: self.work_dir_prefix@,
            head: self.head@,
        }
    }
}

impl Copied for GitBaseline {
    fn copied(&self) -> (out: Self) {
        GitBaseline {
            repository_root: self.repository_root.clone(),
            work_dir_prefix: self.work_dir_prefix.clone(),
            head: self.head.clone(),
        }
    }
}

/// A file that was changed. `expected` is what the change left behind,
/// where the change has ended.
pub struct CheckpointEntry {
    pub path: String,
    pub original: OriginalState,
    pub expected: Option<OriginalState>,
}

/// The mathematical form of an entry.
pub struct EntryModel {
    pub path: Seq<char>,
    pub original: StateModel,
    pub expected: Option<StateModel>,
}

impl DeepView for CheckpointEntry {
    type V = EntryModel;

    open spec fn deep_view(&self) -> EntryModel {
        EntryModel {
            path: self.path@,
            original: self.original.deep_view(),
            expected: self.expected.deep_view(),
        }
    }
}

/// A checkpoint.
pub struct CheckpointManifest {
    pub version: u32,
    pub work_dir: String,
    pub git: Option<GitBaseline>,
    pub entries: Vec<CheckpointEntry>,
}

/// The mathematical form of a manifest.
pub struct ManifestModel {
    pub version: u32,
    pub work_dir: Seq<char>,
    pub git: Option<BaselineModel>,
    pub entries: Seq<EntryModel>,
}

impl DeepView for CheckpointManifest {
    type V = ManifestModel;

    open spec fn deep_view(&self) -> ManifestModel {
        ManifestModel {
            version: self.version,
            work_dir: self.work_dir@,
            git: self.git.deep_view(),
            entries: self.entries.deep_view(),
        }
    }
}

/// The position of the first entry for a path.
pub open spec fn entry_index(entries: Seq<EntryModel>, path: Seq<char>) -> Option<int>
    decreases entries.len(),
{
    if entries.len() == 0 {
        None
    } else {
        match entry_index(entries.drop_last(), path) {
            Some(i) => Some(i),
            None => if entries.last().path == path {
                Some(entries.len() - 1)
            } else {
                None
            },
        }
    }
}

/// The first entry for a path is at its position, and where there is none
/// no entry has the path.
pub proof fn lemma_entry_index(entries: Seq<EntryModel>, path: Seq<char>)
    ensures
        match entry_index(entries, path) {
            Some(i) => 0 <= i < entries.len() && entries[i].path == path && forall|j: int|
                0 <= j < i ==> (#[trigger] entries[j]).path != path,
            None => forall|j: int| 0 <= j < entries.len() ==> (#[trigger] entries[j]).path != path,
        },
    decreases entries.len(),
{
    if entries.len() > 0 {
        let front = entries.drop_last();
        lemma_entry_index(front, path);
        assert forall|j: int| 0 <= j < front.len() implies #[trigger] entries[j] == front[j] by {}
    }
}

/// A position is that of the first entry where no entry before it has the
/// path.
pub proof fn lemma_entry_index_is(entries: Seq<EntryModel>, path: Seq<char>, i: int)
    requires
        0 <= i < entries.len(),
        entries[i].path == path,
        forall|j: int| 0 <= j < i ==> (#[trigger] entries[j]).path != path,
    ensures
        entry_index(entries, path) == Some(i),
{
    lemma_entry_index(entries, path);
    let found = entry_index(entries, path);
    assert(found is Some);
    let k = found->Some_0;
    assert(entries[k].path == path);
    if k < i {
        assert(entries[k].path != path);
    }
    if i < k {
        assert(entries[i].path != path);
    }
}

/// The entries with the state that the change of a file left behind.
pub open spec fn with_expected(
    entries: Seq<EntryModel>,
    path: Seq<char>,
    state: StateModel,
) -> Seq<EntryModel> {
    match entry_index(entries, path) {
        Some(i) => entries.update(i, EntryModel { expected: Some(state), ..entries[i] }),
        None => entries,
    }
}

/// The entries after a change of a file was seen: an entry for the file
/// keeps what the file held first.
pub open spec fn captured(
    entries: Seq<EntryModel>,
    path: Seq<char>,
    original: StateModel,
    state: StateModel,
) -> Seq<EntryModel> {
    if path.len() == 0 || paths::skips(path) {
        entries
    } else {
        match entry_index(entries, path) {
            Some(_) => with_expected(entries, path, state),
            None => entries.push(EntryModel { path, original, expected: Some(state) }),
        }
    }
}

/// Whether what a file holds must be recorded before it is changed.
pub open spec fn wants_original(m: ManifestModel, path: Seq<char>) -> bool {
    path.len() > 0 && !paths::skips_entry(path) && entry_index(m.entries, path) is None
}

/// The manifest after what a file held before a change was recorded.
pub open spec fn recorded(m: ManifestModel, path: Seq<char>, original: StateModel) -> ManifestModel {
    if wants_original(m, path) {
        ManifestModel {
            entries: m.entries.push(EntryModel { path, original, expected: None }),
            ..m
        }
    } else {
        m
    }
}

/// Whether what a change left behind must be recorded.
pub open spec fn wants_expected(m: ManifestModel, path: Seq<char>) -> bool {
    path.len() > 0 && !paths::skips_entry(path) && entry_index(m.entries, path) is Some
}

/// The manifest after what a change left behind was recorded.
pub open spec fn recorded_after(
    m: ManifestModel,
    path: Seq<char>,
    state: StateModel,
) -> ManifestModel {
    if wants_expected(m, path) {
        ManifestModel { entries: with_expected(m.entries, path, state), ..m }
    } else {
        m
    }
}

/// Whether two paths have the same parts.
pub open spec fn same_path(a: Seq<char>, b: Seq<char>) -> bool {
    (a.len() > 0 && a[0] == '/') == (b.len() > 0 && b[0] == '/') && paths::path_components(
        a,
    ) == paths::path_components(b)
}

/// Whether two paths have the same parts.
pub fn is_same_path(a: &str, b: &str) -> (r: bool)
    ensures
        r == same_path(a@, b@),
{
    match paths::relative_to(a, b) {
        Some(_) => {},
        None => {
            proof {
                if same_path(a@, b@) {
                    let parts = paths::path_components(a@);
                    assert(parts.take(parts.len() as int) =~= parts);
                }
            }
            return false;
        },
    }
    let left = components_of(a);
    let right = components_of(b);
    proof {
        let p = paths::path_components(a@);
        let q = paths::path_components(b@);
        assert(left@.len() == p.len());
        assert(right@.len() == q.len());
        assert(p.take(q.len() as int) == q);
        if p.len() == q.len() {
            assert(p.take(q.len() as int) =~= p);
        }
    }
    left.len() == right.len()
}

/// The message for a checkpoint of another directory.
pub open spec fn wrong_directory(recorded: Seq<char>, requested: Seq<char>) -> Seq<char> {
    "Checkpoint belongs to '"@ + recorded + "', not '"@ + requested + "'"@
}

/// The error for a checkpoint of another directory.
pub(crate) fn belongs_elsewhere(recorded: &str, requested: &str) -> (e: StorageError)
    ensures
        e.deep_view() == error::failure(wrong_directory(recorded@, requested@)),
{
    let mut reason = "Checkpoint belongs to '".to_string();
    reason.append(recorded);
    reason.append("', not '");
    reason.append(requested);
    reason.append("'");
    StorageError::from_reason(reason.as_str())
}

impl CheckpointManifest {
    /// A checkpoint that has recorded nothing yet.
    pub fn create_checkpoint(work_dir: String, git: Option<GitBaseline>) -> (m: CheckpointManifest)
        ensures
            m.deep_view() == (ManifestModel {
                version: MANIFEST_VERSION,
                work_dir: work_dir@,
                git: git.deep_view(),
                entries: Seq::empty(),
            }),
    {
        let m = CheckpointManifest { version: MANIFEST_VERSION, work_dir, git, entries: Vec::new() };
        proof {
            assert(m.entries.deep_view() =~= Seq::empty());
        }
        m
    }

    /// Refuses a manifest of another format.
    pub fn check_version(&self) -> (r: Result<(), StorageError>)
        ensures
            error::result_view(r) == (if self.version == MANIFEST_VERSION {
                Ok(())
            } else {
                Err(
                    error::failure(
                        "Unsupported checkpoint format version: "@ + text::decimal(
                            self.version as nat,
                        ),
                    ),
                )
            }),
    {
        if self.version == MANIFEST_VERSION {
            return Ok(());
        }
        let mut reason = text::chars_of("Unsupported checkpoint format version: ");
        let number = text::write_u64(self.version as u64);
        text::append(&mut reason, number.as_slice());
        let reason = text::string_of(reason.as_slice());
        Err(StorageError::from_reason(reason.as_str()))
    }

    /// Refuses a manifest that belongs to another directory.
    pub fn validate_manifest_work_dir(&self, requested: &str) -> (r: Result<(), StorageError>)
        ensures
            error::result_view(r) == (if same_path(requested@, self.work_dir@) {
                Ok(())
            } else {
                Err(error::failure(wrong_directory(self.work_dir@, requested@)))
            }),
    {
        if is_same_path(requested, self.work_dir.as_str()) {
            Ok(())
        } else {
            Err(belongs_elsewhere(self.work_dir.as_str(), requested))
        }
    }

    /// Accepts a manifest that was found for a working directory: one of
    /// the known format that belongs there. A checkpoint that is gone is no
    /// error.
    pub fn open_checkpoint(found: Option<CheckpointManifest>, requested: &str) -> (r: Result<
        Option<CheckpointManifest>,
        StorageError,
    >)
        ensures
            error::result_view(r) == (match found {
                None => Ok(None),
                Some(m) => if m.version != MANIFEST_VERSION {
                    Err(
                        error::failure(
                            "Unsupported checkpoint format version: "@ + text::decimal(
                                m.version as nat,
                            ),
                        ),
                    )
                } else if !same_path(requested@, m.work_dir@) {
                    Err(error::failure(wrong_directory(m.work_dir@, requested@)))
                } else {
                    Ok(Some(m.deep_view()))
                },
            }),
    {
        match found {
            None => Ok(None),
            Some(m) => {
                match m.check_version() {
                    Ok(_) => {},
                    Err(e) => {
                        return Err(e);
                    },
                }
                match m.validate_manifest_work_dir(requested) {
                    Ok(_) => Ok(Some(m)),
                    Err(e) => Err(e),
                }
            },
        }
    }

    /// The position of the first entry for a path.
    pub fn find_entry(&self, path: &str) -> (r: Option<usize>)
        ensures
            match r {
                Some(i) => entry_index(self.deep_view().entries, path@) == Some(i as int),
                None => entry_index(self.deep_view().entries, path@) is None,
            },
    {
        let ghost all = self.entries.deep_view();
        let wanted = text::chars_of(path);
        let mut i: usize = 0;
        while i < self.entries.len()
            invariant
                i <= self.entries@.len(),
                all == self.entries.deep_view(),
                wanted@ == path@,
                forall|j: int| 0 <= j < i ==> (#[trigger] all[j]).path != path@,
            decreases self.entries@.len() - i,
        {
            proof {
                assert(all[i as int] == self.entries@[i as int].deep_view());
            }
            if text::equals(wanted.as_slice(), self.entries[i].path.as_str()) {
                proof {
                    lemma_entry_index_is(all, path@, i as int);
                }
                return Some(i);
            }
            i += 1;
        }
        proof {
            lemma_entry_index(all, path@);
        }
        None
    }

    /// Whether what a file holds must be recorded before it is changed.
    pub fn needs_original(&self, path: &str) -> (r: bool)
        ensures
            r == wants_original(self.deep_view(), path@),
    {
        let chars = text::chars_of(path);
        if chars.len() == 0 || should_skip_manifest_path(path) {
            return false;
        }
        self.find_entry(path).is_none()
    }

    /// Records what a file held before it is changed, unless the checkpoint
    /// knows it already.
    pub fn record_checkpoint_file(&mut self, path: &str, original: OriginalState)
        ensures
            final(self).deep_view() == recorded(old(self).deep_view(), path@, original.deep_view()),
    {
        if !self.needs_original(path) {
            return;
        }
        let ghost before = self.entries.deep_view();
        let entry = CheckpointEntry { path: path.to_string(), original, expected: None };
        self.entries.push(entry);
        proof {
            assert(self.entries.deep_view() =~= before.push(entry.deep_view()));
        }
    }

    /// Whether what a change left behind must be recorded.
    pub fn needs_expected(&self, path: &str) -> (r: bool)
        ensures
            r == wants_expected(self.deep_view(), path@),
    {
        let chars = text::chars_of(path);
        if chars.len() == 0 || should_skip_manifest_path(path) {
            return false;
        }
        self.find_entry(path).is_some()
    }

    /// Sets what the change of a file left behind; says whether the
    /// checkpoint knows the file.
    pub fn update_expected_state(&mut self, path: &str, state: OriginalState) -> (r: bool)
        ensures
            r == entry_index(old(self).deep_view().entries, path@) is Some,
            final(self).deep_view() == (ManifestModel {
                entries: with_expected(old(self).deep_view().entries, path@, state.deep_view()),
                ..old(self).deep_view()
            }),
    {
        match self.find_entry(path) {
            Some(i) => {
                let ghost before = self.entries.deep_view();
                let ghost seen = self.entries@;
                proof {
                    lemma_entry_index(before, path@);
                    assert(before[i as int] == self.entries@[i as int].deep_view());
                }
                self.entries[i].expected = Some(state);
                proof {
                    let now = self.entries.deep_view();
                    assert(now =~= before.update(i as int, now[i as int])) by {
                        assert forall|j: int| 0 <= j < now.len() && j != i implies now[j]
                            == before[j] by {
                            assert(self.entries@[j] == seen[j]);
                        }
                    }
                    assert(now[i as int] == self.entries@[i as int].deep_view());
                }
                true
            },
            None => false,
        }
    }

    /// Records what a change left behind.
    pub fn record_checkpoint_file_after(&mut self, path: &str, state: OriginalState)
        ensures
            final(self).deep_view() == recorded_after(
                old(self).deep_view(),
                path@,
                state.deep_view(),
            ),
    {
        if self.needs_expected(path) {
            let _ = self.update_expected_state(path, state);
        }
    }

    /// Records the change of a file: what it held before and what it holds
    /// now.
    pub fn capture_entry(&mut self, path: &str, original: OriginalState, state: OriginalState)
        ensures
            final(self).deep_view() == (ManifestModel {
                entries: captured(
                    old(self).deep_view().entries,
                    path@,
                    original.deep_view(),
                    state.deep_view(),
                ),
                ..old(self).deep_view()
            }),
    {
        let chars = text::chars_of(path);
        if chars.len() == 0 || should_skip_relative(path) {
            return;
        }
        if self.find_entry(path).is_some() {
            let _ = self.update_expected_state(path, state);
            return;
        }
        let ghost before = self.entries.deep_view();
        let entry = CheckpointEntry { path: path.to_string(), original, expected: Some(state) };
        self.entries.push(entry);
        proof {
            assert(self.entries.deep_view() =~= before.push(entry.deep_view()));
        }
    }
}

/// Whether no file has two entries.
pub open spec fn paths_differ(entries: Seq<EntryModel>) -> bool {
    forall|i: int, j: int|
        0 <= i < j < entries.len() ==> (#[trigger] entries[i]).path != (#[trigger] entries[j]).path
}

/// What a checkpoint knows of a file: what it held first.
pub open spec fn original_of(entries: Seq<EntryModel>, path: Seq<char>) -> Option<StateModel> {
    match entry_index(entries, path) {
        Some(i) => Some(entries[i].original),
        None => None,
    }
}

/// The entry of a path after another entry was added at the end.
proof fn lemma_push(entries: Seq<EntryModel>, e: EntryModel, path: Seq<char>)
    requires
        entry_index(entries, e.path) is None,
    ensures
        entry_index(entries.push(e), path) == (if path == e.path {
            Some(entries.len() as int)
        } else {
            entry_index(entries, path)
        }),
{
    assert(entries.push(e).drop_last() =~= entries);
}

/// Setting what a change left behind moves no entry.
proof fn lemma_update(entries: Seq<EntryModel>, path: Seq<char>, state: StateModel, other: Seq<char>)
    ensures
        with_expected(entries, path, state).len() == entries.len(),
        forall|j: int|
            0 <= j < entries.len() ==> (#[trigger] with_expected(entries, path, state)[j]).path
                == entries[j].path && with_expected(entries, path, state)[j].original
                == entries[j].original,
        entry_index(with_expected(entries, path, state), other) == entry_index(entries, other),
{
    let now = with_expected(entries, path, state);
    lemma_entry_index(entries, path);
    lemma_entry_index(entries, other);
    lemma_entry_index(now, other);
    assert forall|j: int| 0 <= j < entries.len() implies (#[trigger] now[j]).path
        == entries[j].path && now[j].original == entries[j].original by {}
    match entry_index(entries, other) {
        Some(i) => {
            assert(now[i].path == other);
            assert forall|j: int| 0 <= j < i implies (#[trigger] now[j]).path != other by {
                assert(entries[j].path != other);
            }
            lemma_entry_index_is(now, other, i);
        },
        None => {
            match entry_index(now, other) {
                Some(k) => {
                    assert(now[k].path == entries[k].path);
                },
                None => {},
            }
        },
    }
}

/// The entry of a file.
pub open spec fn entry_of(entries: Seq<EntryModel>, path: Seq<char>) -> Option<EntryModel> {
    match entry_index(entries, path) {
        Some(i) => Some(entries[i]),
        None => None,
    }
}

/// The entry of a file after the change of a file was seen.
pub proof fn lemma_captured(
    entries: Seq<EntryModel>,
    path: Seq<char>,
    original: StateModel,
    state: StateModel,
    other: Seq<char>,
)
    ensures
        entry_of(captured(entries, path, original, state), other) == (if path != other
            || path.len() == 0 || paths::skips(path) {
            entry_of(entries, other)
        } else {
            match entry_of(entries, path) {
                Some(e) => Some(EntryModel { expected: Some(state), ..e }),
                None => Some(EntryModel { path, original, expected: Some(state) }),
            }
        }),
{
    lemma_entry_index(entries, path);
    lemma_entry_index(entries, other);
    lemma_update(entries, path, state, other);
    if entry_index(entries, path) is None {
        lemma_push(entries, EntryModel { path, original, expected: Some(state) }, other);
    }
}

/// Recording keeps at most one entry for a file, and what a file held first
/// is never replaced.
pub proof fn law_first_original_stays(
    m: ManifestModel,
    path: Seq<char>,
    original: StateModel,
    state: StateModel,
    other: Seq<char>,
)
    requires
        paths_differ(m.entries),
    ensures
        paths_differ(recorded(m, path, original).entries),
        paths_differ(recorded_after(m, path, state).entries),
        paths_differ(captured(m.entries, path, original, state)),
        original_of(m.entries, other) is Some ==> {
            &&& original_of(recorded(m, path, original).entries, other) == original_of(
                m.entries,
                other,
            )
            &&& original_of(recorded_after(m, path, state).entries, other) == original_of(
                m.entries,
                other,
            )
            &&& original_of(captured(m.entries, path, original, state), other) == original_of(
                m.entries,
                other,
            )
        },
{
    lemma_entry_index(m.entries, path);
    lemma_entry_index(m.entries, other);
    lemma_update(m.entries, path, state, other);
    if entry_index(m.entries, path) is None {
        lemma_push(m.entries, EntryModel { path, original, expected: None }, other);
        lemma_push(m.entries, EntryModel { path, original, expected: Some(state) }, other);
    }
}

/// Recording the change of one file leaves the entries of other files as
/// they are.
pub proof fn law_other_entries_stay(
    m: ManifestModel,
    path: Seq<char>,
    original: StateModel,
    state: StateModel,
    i: int,
)
    requires
        0 <= i < m.entries.len(),
        m.entries[i].path != path,
    ensures
        recorded(m, path, original).entries[i] == m.entries[i],
        recorded_after(m, path, state).entries[i] == m.entries[i],
        captured(m.entries, path, original, state)[i] == m.entries[i],
{
    lemma_entry_index(m.entries, path);
}

} // verus!
