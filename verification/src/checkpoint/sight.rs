//! What is seen of a recorded file, and how that differs from an earlier
//! state of it.

use vstd::prelude::*;
use crate::checkpoint::content;
use crate::checkpoint::content::{
    cannot_read, read_current_content, same_content, FileRead, ReadModel,
};
use crate::checkpoint::manifest::{CheckpointEntry, EntryModel, OriginalState, StateModel};
use crate::checkpoint::paths;
use crate::checkpoint::paths::should_skip_manifest_path;
use crate::error;
use crate::error::{ErrorModel, StorageError};

verus! {

/// How a file differs from an earlier state.
#[derive(Clone, Copy, PartialEq, Eq, Structural, Debug)]
pub enum ChangeType {
    Added,
    Deleted,
    Modified,
}

impl DeepView for ChangeType {
    type V = ChangeType;

    open spec fn deep_view(&self) -> ChangeType {
        *self
    }
}

/// The name under which a change is shown.
pub open spec fn change_name(c: ChangeType) -> Seq<char> {
    match c {
        ChangeType::Added => "added"@,
        ChangeType::Deleted => "deleted"@,
        ChangeType::Modified => "modified"@,
    }
}

impl ChangeType {
    /// The name under which a change is shown.
    pub fn name(self) -> (out: String)
        ensures
            out@ == change_name(self),
    {
        match self {
            ChangeType::Added => "added".to_string(),
            ChangeType::Deleted => "deleted".to_string(),
            ChangeType::Modified => "modified".to_string(),
        }
    }
}

/// What could be fetched of the content that a state stands for: there is
/// none, it is this, or it could not be read.
pub enum Stored {
    Absent,
    Content(Vec<u8>),
    Failed(StorageError),
}

/// The mathematical form of stored content.
pub enum StoredModel {
    Absent,
    Content(Seq<u8>),
    Failed(ErrorModel),
}

impl DeepView for Stored {
    type V = StoredModel;

    open spec fn deep_view(&self) -> StoredModel {
        match self {
            Stored::Absent => StoredModel::Absent,
            Stored::Content(bytes) => StoredModel::Content(bytes@),
            Stored::Failed(e) => StoredModel::Failed(e.deep_view()),
        }
    }
}

/// What reading a kept object gave: its content, or the message of an error.
pub fn stored_object(path: &str, read: Result<Vec<u8>, String>) -> (r: Stored)
    ensures
        r.deep_view() == (match read {
            Ok(bytes) => StoredModel::Content(bytes@),
            Err(message) => StoredModel::Failed(
                error::failure(
                    content::unreadable("Failed to read checkpoint object '"@, path@, message@),
                ),
            ),
        }),
{
    match read {
        Ok(bytes) => Stored::Content(bytes),
        Err(message) => Stored::Failed(
            cannot_read("Failed to read checkpoint object '", path, message.as_str()),
        ),
    }
}

/// The message for an entry that needs a Git baseline where there is none.
pub open spec fn no_baseline() -> Seq<char> {
    "Checkpoint Git baseline is missing"@
}

/// The content that a state stands for.
pub open spec fn original_content(
    state: StateModel,
    has_git: bool,
    stored: StoredModel,
) -> Result<Option<Seq<u8>>, ErrorModel> {
    match state {
        StateModel::Missing => Ok(None),
        _ => if state is Git && !has_git {
            Err(error::failure(no_baseline()))
        } else {
            match stored {
                StoredModel::Absent => Ok(None),
                StoredModel::Content(bytes) => Ok(Some(bytes)),
                StoredModel::Failed(e) => Err(e),
            }
        },
    }
}

/// The content that a state stands for.
pub fn read_original_content<'a>(
    state: &OriginalState,
    has_git: bool,
    stored: &'a Stored,
) -> (r: Result<Option<&'a Vec<u8>>, StorageError>)
    ensures
        content::found_view(r) == original_content(state.deep_view(), has_git, stored.deep_view()),
{
    match state {
        OriginalState::Missing => {
            return Ok(None);
        },
        OriginalState::Git => {
            if !has_git {
                return Err(StorageError::from_reason("Checkpoint Git baseline is missing"));
            }
        },
        OriginalState::Object { .. } => {},
    }
    match stored {
        Stored::Absent => Ok(None),
        Stored::Content(bytes) => Ok(Some(bytes)),
        Stored::Failed(e) => Err(e.duplicate()),
    }
}

/// The time and size of a file.
#[derive(Clone, Copy, PartialEq, Eq, Structural, Debug)]
pub struct FileStat {
    pub mtime_ms: u64,
    pub size: u64,
}

impl DeepView for FileStat {
    type V = FileStat;

    open spec fn deep_view(&self) -> FileStat {
        *self
    }
}

/// Whether a state, with what is stored for it, stands for a content, or for
/// no file.
pub open spec fn stands_for(
    state: StateModel,
    stored: StoredModel,
    content: Option<Seq<u8>>,
) -> bool {
    match content {
        Some(bytes) => state is Object && stored == StoredModel::Content(bytes),
        None => state is Missing,
    }
}

/// Whether what is stored for a state could be fetched: for a missing file
/// there is nothing, and for a kept one its content.
pub open spec fn is_complete(state: StateModel, stored: StoredModel) -> bool {
    match state {
        StateModel::Missing => stored is Absent,
        StateModel::Object { .. } => stored is Content,
        StateModel::Git => !(stored is Failed),
    }
}

/// The content that is stored, if there is any.
pub open spec fn stored_content(stored: StoredModel) -> Option<Seq<u8>> {
    match stored {
        StoredModel::Content(bytes) => Some(bytes),
        _ => None,
    }
}

/// What is seen of a recorded file.
pub trait Sight: DeepView + Sized {
    /// Whether the content of a Git baseline can be fetched.
    spec fn reads_git() -> bool;

    /// How the file differs from a state.
    spec fn change(
        seen: Self::V,
        path: Seq<char>,
        state: StateModel,
        has_git: bool,
        stored: StoredModel,
    ) -> Result<Option<ChangeType>, ErrorModel>;

    /// The time and size of the file.
    spec fn stat(seen: Self::V) -> Option<FileStat>;

    /// The content of the file, for showing it.
    spec fn content(seen: Self::V, path: Seq<char>) -> Result<Option<Seq<u8>>, ErrorModel>;

    /// Whether what is seen is a file with the given content, or no file.
    spec fn sees(seen: Self::V, content: Option<Seq<u8>>) -> bool;

    /// A file does not differ from the state that its content is kept under.
    proof fn lemma_same(
        seen: Self::V,
        path: Seq<char>,
        content: Option<Seq<u8>>,
        state: StateModel,
        has_git: bool,
        stored: StoredModel,
    )
        requires
            Self::sees(seen, content),
            stands_for(state, stored, content),
        ensures
            Self::change(seen, path, state, has_git, stored) == Ok::<
                Option<ChangeType>,
                ErrorModel,
            >(None),
    ;

    /// Where a file is not told to differ from a state, it holds what is
    /// stored for the state, and else it does not.
    proof fn lemma_tells(
        seen: Self::V,
        path: Seq<char>,
        content: Option<Seq<u8>>,
        state: StateModel,
        has_git: bool,
        stored: StoredModel,
    )
        requires
            Self::sees(seen, content),
            is_complete(state, stored),
        ensures
            Self::change(seen, path, state, has_git, stored) matches Ok(c) ==> (c is None
                <==> content == stored_content(stored)),
    ;

    /// How a file differs from a state that is not one of Git can always be
    /// told: it was added, deleted or modified, or it holds what is stored.
    proof fn lemma_names(
        seen: Self::V,
        path: Seq<char>,
        content: Option<Seq<u8>>,
        state: StateModel,
        has_git: bool,
        stored: StoredModel,
    )
        requires
            Self::sees(seen, content),
            !(state is Git),
        ensures
            Self::change(seen, path, state, has_git, stored) == Ok::<
                Option<ChangeType>,
                ErrorModel,
            >(
                match (state, content) {
                    (StateModel::Missing, None) => None,
                    (StateModel::Missing, Some(_)) => Some(ChangeType::Added),
                    (_, None) => Some(ChangeType::Deleted),
                    (_, Some(bytes)) => if stored == StoredModel::Content(bytes) {
                        None
                    } else {
                        Some(ChangeType::Modified)
                    },
                },
            ),
    ;

    /// What is shown of a file is what it holds.
    proof fn lemma_shows(seen: Self::V, path: Seq<char>, content: Option<Seq<u8>>)
        requires
            Self::sees(seen, content),
        ensures
            Self::content(seen, path) == Ok::<Option<Seq<u8>>, ErrorModel>(content),
    ;

    /// Whether the content of a Git baseline can be fetched.
    fn can_read_git() -> (r: bool)
        ensures
            r == Self::reads_git(),
    ;

    /// How the file differs from a state.
    fn classify_change(
        &self,
        path: &str,
        state: &OriginalState,
        has_git: bool,
        stored: &Stored,
    ) -> (r: Result<Option<ChangeType>, StorageError>)
        ensures
            error::result_view(r) == Self::change(
                self.deep_view(),
                path@,
                state.deep_view(),
                has_git,
                stored.deep_view(),
            ),
    ;

    /// The time and size of the file.
    fn file_stat(&self) -> (r: Option<FileStat>)
        ensures
            r == Self::stat(self.deep_view()),
    ;

    /// The content of the file, for showing it.
    fn shown_content(&self, path: &str) -> (r: Result<Option<&Vec<u8>>, StorageError>)
        ensures
            content::found_view(r) == Self::content(self.deep_view(), path@),
    ;
}

/// What is seen of a file of this machine: where it lies, its time and size
/// where there is anything, and its content.
pub struct LocalSight {
    pub place: String,
    pub stat: Option<FileStat>,
    pub read: FileRead,
}

/// The mathematical form of what is seen.
pub struct LocalModel {
    pub place: Seq<char>,
    pub stat: Option<FileStat>,
    pub read: ReadModel,
}

impl DeepView for LocalSight {
    type V = LocalModel;

    open spec fn deep_view(&self) -> LocalModel {
        LocalModel { place: self.place@, stat: self.stat, read: self.read.deep_view() }
    }
}

/// Whether a file holds what was stored.
pub open spec fn holds(read: ReadModel, stored: StoredModel) -> bool {
    match (read, stored) {
        (ReadModel::Content(a), StoredModel::Content(b)) => a == b,
        _ => false,
    }
}

/// Whether a file holds what was stored. What cannot be read differs.
fn file_holds(read: &FileRead, stored: &Stored) -> (r: bool)
    ensures
        r == holds(read.deep_view(), stored.deep_view()),
{
    match (read, stored) {
        (FileRead::Content(a), Stored::Content(b)) => same_content(a.as_slice(), b.as_slice()),
        _ => false,
    }
}

/// How a file that was there, or was not, differs from stored content.
pub open spec fn against_stored(read: ReadModel, stored: StoredModel) -> Option<ChangeType> {
    if read is Missing {
        Some(ChangeType::Deleted)
    } else if holds(read, stored) {
        None
    } else {
        Some(ChangeType::Modified)
    }
}

/// How a file differs from having been missing.
pub open spec fn against_nothing(exists: bool) -> Option<ChangeType> {
    if exists {
        Some(ChangeType::Added)
    } else {
        None
    }
}

/// How a file of this machine differs from a state.
pub open spec fn local_change(
    read: ReadModel,
    state: StateModel,
    has_git: bool,
    stored: StoredModel,
) -> Result<Option<ChangeType>, ErrorModel> {
    match state {
        StateModel::Missing => Ok(against_nothing(!(read is Missing))),
        StateModel::Object { .. } => Ok(against_stored(read, stored)),
        StateModel::Git => if !has_git {
            Err(error::failure(no_baseline()))
        } else {
            match stored {
                StoredModel::Failed(e) => Err(e),
                StoredModel::Absent => Ok(against_nothing(!(read is Missing))),
                StoredModel::Content(_) => Ok(against_stored(read, stored)),
            }
        },
    }
}

impl LocalSight {
    /// Whether there is anything at the path.
    fn is_there(&self) -> (r: bool)
        ensures
            r == !(self.deep_view().read is Missing),
    {
        !matches!(self.read, FileRead::Missing)
    }

    /// How the file differs from stored content.
    fn differs_from(&self, stored: &Stored) -> (r: Option<ChangeType>)
        ensures
            r == against_stored(self.deep_view().read, stored.deep_view()),
    {
        if !self.is_there() {
            Some(ChangeType::Deleted)
        } else if file_holds(&self.read, stored) {
            None
        } else {
            Some(ChangeType::Modified)
        }
    }

    /// How the file differs from having been missing.
    fn differs_from_nothing(&self) -> (r: Option<ChangeType>)
        ensures
            r == against_nothing(!(self.deep_view().read is Missing)),
    {
        if self.is_there() {
            Some(ChangeType::Added)
        } else {
            None
        }
    }
}

impl Sight for LocalSight {
    open spec fn reads_git() -> bool {
        true
    }

    open spec fn change(
        seen: LocalModel,
        path: Seq<char>,
        state: StateModel,
        has_git: bool,
        stored: StoredModel,
    ) -> Result<Option<ChangeType>, ErrorModel> {
        local_change(seen.read, state, has_git, stored)
    }

    open spec fn stat(seen: LocalModel) -> Option<FileStat> {
        seen.stat
    }

    open spec fn content(seen: LocalModel, path: Seq<char>) -> Result<
        Option<Seq<u8>>,
        ErrorModel,
    > {
        content::content_of(seen.place, seen.read)
    }

    open spec fn sees(seen: LocalModel, content: Option<Seq<u8>>) -> bool {
        seen.read == (match content {
            Some(bytes) => ReadModel::Content(bytes),
            None => ReadModel::Missing,
        })
    }

    proof fn lemma_same(
        seen: LocalModel,
        path: Seq<char>,
        content: Option<Seq<u8>>,
        state: StateModel,
        has_git: bool,
        stored: StoredModel,
    ) {
    }

    proof fn lemma_tells(
        seen: LocalModel,
        path: Seq<char>,
        content: Option<Seq<u8>>,
        state: StateModel,
        has_git: bool,
        stored: StoredModel,
    ) {
    }

    proof fn lemma_names(
        seen: LocalModel,
        path: Seq<char>,
        content: Option<Seq<u8>>,
        state: StateModel,
        has_git: bool,
        stored: StoredModel,
    ) {
    }

    proof fn lemma_shows(seen: LocalModel, path: Seq<char>, content: Option<Seq<u8>>) {
    }

    fn can_read_git() -> (r: bool) {
        true
    }

    fn classify_change(
        &self,
        path: &str,
        state: &OriginalState,
        has_git: bool,
        stored: &Stored,
    ) -> (r: Result<Option<ChangeType>, StorageError>) {
        match state {
            OriginalState::Missing => Ok(self.differs_from_nothing()),
            OriginalState::Object { .. } => Ok(self.differs_from(stored)),
            OriginalState::Git => {
                if !has_git {
                    return Err(StorageError::from_reason("Checkpoint Git baseline is missing"));
                }
                match stored {
                    Stored::Failed(e) => Err(e.duplicate()),
                    Stored::Absent => Ok(self.differs_from_nothing()),
                    Stored::Content(_) => Ok(self.differs_from(stored)),
                }
            },
        }
    }

    fn file_stat(&self) -> (r: Option<FileStat>) {
        self.stat
    }

    fn shown_content(&self, path: &str) -> (r: Result<Option<&Vec<u8>>, StorageError>) {
        read_current_content(self.place.as_str(), &self.read)
    }
}

/// What is seen for an entry of a manifest: the file, and the content that
/// the states of the entry stand for.
pub struct EntryFacts<S> {
    pub sight: S,
    pub expected: Stored,
    pub original: Stored,
}

/// The mathematical form of facts.
pub struct FactsModel<V> {
    pub sight: V,
    pub expected: StoredModel,
    pub original: StoredModel,
}

impl<S: DeepView> DeepView for EntryFacts<S> {
    type V = FactsModel<S::V>;

    open spec fn deep_view(&self) -> FactsModel<S::V> {
        FactsModel {
            sight: self.sight.deep_view(),
            expected: self.expected.deep_view(),
            original: self.original.deep_view(),
        }
    }
}

/// Whether an entry is one that is shown and taken back: its change has
/// ended, and its path is not left alone.
pub open spec fn in_play(e: EntryModel) -> bool {
    !paths::skips_entry(e.path) && e.expected is Some
}

/// Whether an entry is one that is shown and taken back.
pub(crate) fn is_in_play(e: &CheckpointEntry) -> (r: bool)
    ensures
        r == in_play(e.deep_view()),
{
    !should_skip_manifest_path(e.path.as_str()) && e.expected.is_some()
}

/// How the file of an entry differs from what the recorded change left
/// behind. A file without a difference is taken back; one that was changed
/// again is not.
pub open spec fn drift<S: Sight>(
    e: EntryModel,
    has_git: bool,
    f: FactsModel<S::V>,
) -> Result<Option<ChangeType>, ErrorModel>
    recommends
        e.expected is Some,
{
    S::change(f.sight, e.path, e.expected->Some_0, has_git, f.expected)
}

/// Whether the file of an entry still is what the recorded change left
/// behind.
pub(crate) fn states_match<S: Sight>(
    e: &CheckpointEntry,
    has_git: bool,
    f: &EntryFacts<S>,
) -> (r: Result<bool, StorageError>)
    requires
        e.deep_view().expected is Some,
    ensures
        match r {
            Ok(b) => drift::<S>(e.deep_view(), has_git, f.deep_view()) is Ok && b == drift::<S>(
                e.deep_view(),
                has_git,
                f.deep_view(),
            )->Ok_0 is None,
            Err(x) => drift::<S>(e.deep_view(), has_git, f.deep_view()) == Err::<
                Option<ChangeType>,
                ErrorModel,
            >(x.deep_view()),
        },
{
    match &e.expected {
        Some(expected) => {
            match f.sight.classify_change(e.path.as_str(), expected, has_git, &f.expected) {
                Ok(change) => Ok(change.is_none()),
                Err(x) => Err(x),
            }
        },
        None => Ok(false),
    }
}

/// How the file of an entry differs from what it held first.
pub open spec fn change_since<S: Sight>(
    e: EntryModel,
    has_git: bool,
    f: FactsModel<S::V>,
) -> Result<Option<ChangeType>, ErrorModel> {
    S::change(f.sight, e.path, e.original, has_git, f.original)
}

} // verus!
