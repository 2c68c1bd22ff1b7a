//! Going back to a checkpoint: which files are put back, and which
//! directories may be left empty.

use vstd::prelude::*;
use vstd::slice::slice_subrange;
use crate::checkpoint::content;
use crate::checkpoint::listing;
use crate::checkpoint::listing::{CachedModel, DiffModel};
use crate::checkpoint::manifest;
use crate::checkpoint::manifest::{
    CheckpointEntry, CheckpointManifest, EntryModel, ManifestModel, OriginalState, StateModel,
};
use crate::checkpoint::paths;
use crate::checkpoint::sight;
use crate::checkpoint::sight::{
    is_in_play, states_match, EntryFacts, FactsModel, Sight, Stored, StoredModel,
};
use crate::error;
use crate::error::{ErrorModel, StorageError};
use crate::order;
use crate::order::Ranking;
use crate::rows::select_rows;
use crate::text;

verus! {

/// How a file is put back: it is removed, it gets the content that is kept
/// under an identifier, or it gets this content.
pub enum RestoreAction {
    Remove,
    CopyObject { object_id: String },
    Write { content: Vec<u8> },
}

/// The mathematical form of an action.
pub enum ActionModel {
    Remove,
    CopyObject { object_id: Seq<char> },
    Write { content: Seq<u8> },
}

impl DeepView for RestoreAction {
    type V = ActionModel;

    open spec fn deep_view(&self) -> ActionModel {
        match self {
            RestoreAction::Remove => ActionModel::Remove,
            RestoreAction::CopyObject { object_id } => ActionModel::CopyObject {
                object_id: object_id@,
            },
            RestoreAction::Write { content } => ActionModel::Write { content: content@ },
        }
    }
}

/// A file that is put back.
pub struct PlannedRestore {
    pub path: String,
    pub action: RestoreAction,
}

/// The mathematical form of a file that is put back.
pub struct StepModel {
    pub path: Seq<char>,
    pub action: ActionModel,
}

impl DeepView for PlannedRestore {
    type V = StepModel;

    open spec fn deep_view(&self) -> StepModel {
        StepModel { path: self.path@, action: self.action.deep_view() }
    }
}

/// What going back to a checkpoint does: the steps, in their order, and the
/// error that ends it after them.
pub struct RestorePlan {
    pub steps: Vec<PlannedRestore>,
    pub failed: Option<StorageError>,
}

/// The mathematical form of a plan.
pub struct PlanModel {
    pub steps: Seq<StepModel>,
    pub failed: Option<ErrorModel>,
}

impl DeepView for RestorePlan {
    type V = PlanModel;

    open spec fn deep_view(&self) -> PlanModel {
        PlanModel { steps: self.steps.deep_view(), failed: self.failed.deep_view() }
    }
}

/// How the state that a file had first is put back.
pub open spec fn action_for(
    path: Seq<char>,
    original: StateModel,
    has_git: bool,
    stored: StoredModel,
) -> Result<ActionModel, ErrorModel> {
    match original {
        StateModel::Missing => Ok(ActionModel::Remove),
        StateModel::Object { object_id } => Ok(ActionModel::CopyObject { object_id }),
        StateModel::Git => if !has_git {
            Err(error::failure(sight::no_baseline()))
        } else {
            match stored {
                StoredModel::Content(content) => Ok(ActionModel::Write { content }),
                StoredModel::Failed(e) => Err(e),
                StoredModel::Absent => Err(
                    error::failure("Checkpoint Git object is missing for '"@ + path + "'"@),
                ),
            }
        },
    }
}

/// How the state that a file had first is put back.
fn restore_entry(path: &str, original: &OriginalState, has_git: bool, stored: &Stored) -> (r:
    Result<RestoreAction, StorageError>)
    ensures
        error::result_view(r) == action_for(
            path@,
            original.deep_view(),
            has_git,
            stored.deep_view(),
        ),
{
    match original {
        OriginalState::Missing => Ok(RestoreAction::Remove),
        OriginalState::Object { object_id } => Ok(
            RestoreAction::CopyObject { object_id: object_id.clone() },
        ),
        OriginalState::Git => {
            if !has_git {
                return Err(StorageError::from_reason("Checkpoint Git baseline is missing"));
            }
            match stored {
                Stored::Content(content) => {
                    let copy = copy_bytes(content);
                    Ok(RestoreAction::Write { content: copy })
                },
                Stored::Failed(e) => Err(e.duplicate()),
                Stored::Absent => {
                    let mut reason = "Checkpoint Git object is missing for '".to_string();
                    reason.append(path);
                    reason.append("'");
                    Err(StorageError::from_reason(reason.as_str()))
                },
            }
        },
    }
}

/// The same bytes again.
fn copy_bytes(bytes: &Vec<u8>) -> (out: Vec<u8>)
    ensures
        out@ == bytes@,
{
    let mut out: Vec<u8> = Vec::new();
    let mut i: usize = 0;
    while i < bytes.len()
        invariant
            i <= bytes@.len(),
            out@ == bytes@.take(i as int),
        decreases bytes@.len() - i,
    {
        out.push(bytes[i]);
        proof {
            assert(bytes@.take(i + 1) =~= bytes@.take(i as int).push(bytes@[i as int]));
        }
        i += 1;
    }
    proof {
        assert(bytes@.take(i as int) =~= bytes@);
    }
    out
}

/// How the file of an entry is put back. A file that was changed again
/// since the recorded change is left as it is.
pub open spec fn planned<S: Sight>(e: EntryModel, has_git: bool, f: FactsModel<S::V>) -> Result<
    Option<ActionModel>,
    ErrorModel,
> {
    if !sight::in_play(e) {
        Ok(None)
    } else {
        match sight::drift::<S>(e, has_git, f) {
            Err(x) => Err(x),
            Ok(Some(_)) => Ok(None),
            Ok(None) => match action_for(e.path, e.original, has_git, f.original) {
                Ok(action) => Ok(Some(action)),
                Err(x) => Err(x),
            },
        }
    }
}

/// How the file of an entry is put back.
fn plan_entry<S: Sight>(e: &CheckpointEntry, has_git: bool, f: &EntryFacts<S>) -> (r: Result<
    Option<RestoreAction>,
    StorageError,
>)
    ensures
        error::result_view(r) == planned::<S>(e.deep_view(), has_git, f.deep_view()),
{
    if !is_in_play(e) {
        return Ok(None);
    }
    match states_match(e, has_git, f) {
        Ok(true) => {},
        Ok(false) => {
            return Ok(None);
        },
        Err(x) => {
            return Err(x);
        },
    }
    match restore_entry(e.path.as_str(), &e.original, has_git, &f.original) {
        Ok(action) => Ok(Some(action)),
        Err(x) => Err(x),
    }
}

/// What the first entries of a manifest put back.
pub open spec fn plan_of<S: Sight>(m: ManifestModel, facts: Seq<FactsModel<S::V>>, n: int) -> PlanModel
    decreases n,
{
    if n <= 0 {
        PlanModel { steps: Seq::empty(), failed: None }
    } else {
        let before = plan_of::<S>(m, facts, n - 1);
        match before.failed {
            Some(_) => before,
            None => match planned::<S>(
                m.entries[n - 1],
                listing::uses_git::<S>(m),
                facts[n - 1],
            ) {
                Err(x) => PlanModel { steps: before.steps, failed: Some(x) },
                Ok(None) => before,
                Ok(Some(action)) => PlanModel {
                    steps: before.steps.push(StepModel { path: m.entries[n - 1].path, action }),
                    failed: None,
                },
            },
        }
    }
}

/// What going back to a checkpoint does.
pub open spec fn restore_plan<S: Sight>(m: ManifestModel, facts: Seq<FactsModel<S::V>>) -> PlanModel {
    plan_of::<S>(m, facts, m.entries.len() as int)
}

proof fn lemma_plan_fails<S: Sight>(
    m: ManifestModel,
    facts: Seq<FactsModel<S::V>>,
    i: int,
    n: int,
)
    requires
        0 <= i <= n,
        plan_of::<S>(m, facts, i).failed is Some,
    ensures
        plan_of::<S>(m, facts, n) == plan_of::<S>(m, facts, i),
    decreases n - i,
{
    if i < n {
        lemma_plan_fails::<S>(m, facts, i, n - 1);
    }
}

/// What going back to a checkpoint does. Only files that still are what the
/// recorded change left behind are put back.
pub fn restore_checkpoint<S: Sight>(m: &CheckpointManifest, facts: &Vec<EntryFacts<S>>) -> (r:
    RestorePlan)
    requires
        facts@.len() == m.entries@.len(),
    ensures
        r.deep_view() == restore_plan::<S>(m.deep_view(), facts.deep_view()),
{
    let ghost mm = m.deep_view();
    let ghost ff = facts.deep_view();
    let has_git = m.git.is_some() && S::can_read_git();
    let mut steps: Vec<PlannedRestore> = Vec::new();
    let total: usize = m.entries.len();
    let mut i: usize = 0;
    proof {
        assert(steps.deep_view() =~= Seq::empty());
    }
    while i < total
        invariant
            i <= total == m.entries@.len() == facts@.len(),
            mm == m.deep_view(),
            ff == facts.deep_view(),
            has_git == listing::uses_git::<S>(mm),
            plan_of::<S>(mm, ff, i as int) == (PlanModel { steps: steps.deep_view(), failed: None }),
        decreases total - i,
    {
        let ghost before = steps.deep_view();
        proof {
            assert(mm.entries[i as int] == m.entries@[i as int].deep_view());
            assert(ff[i as int] == facts@[i as int].deep_view());
        }
        match plan_entry(&m.entries[i], has_git, &facts[i]) {
            Err(x) => {
                let r = RestorePlan { steps, failed: Some(x) };
                proof {
                    assert(plan_of::<S>(mm, ff, i + 1).failed is Some);
                    lemma_plan_fails::<S>(mm, ff, i + 1, total as int);
                    assert(r.deep_view() == plan_of::<S>(mm, ff, i + 1));
                }
                return r;
            },
            Ok(None) => {},
            Ok(Some(action)) => {
                let step = PlannedRestore { path: m.entries[i].path.clone(), action };
                steps.push(step);
                proof {
                    assert(steps.deep_view() =~= before.push(step.deep_view()));
                }
            },
        }
        i += 1;
    }
    RestorePlan { steps, failed: None }
}

// ---------------------------------------------------------------------
// Directories that may be left empty
// ---------------------------------------------------------------------

/// The position of the last slash.
pub open spec fn last_slash(s: Seq<char>) -> Option<int>
    decreases s.len(),
{
    if s.len() == 0 {
        None
    } else if s.last() == '/' {
        Some(s.len() - 1)
    } else {
        last_slash(s.drop_last())
    }
}

/// The directory that a path lies in, where it is not the top.
pub open spec fn parent_path(path: Seq<char>) -> Option<Seq<char>> {
    match last_slash(path) {
        Some(i) => if i > 0 {
            Some(path.take(i))
        } else {
            None
        },
        None => None,
    }
}

/// The directory that a path lies in, where it is not the top.
pub fn parent_of(path: &str) -> (r: Option<String>)
    ensures
        r.deep_view() == parent_path(path@),
{
    let chars = text::chars_of(path);
    let mut i: usize = chars.len();
    proof {
        assert(chars@.take(i as int) =~= path@);
    }
    while i > 0
        invariant
            i <= chars@.len(),
            chars@ == path@,
            last_slash(path@) == last_slash(chars@.take(i as int)),
        decreases i,
    {
        proof {
            assert(chars@.take(i as int).last() == chars@[i - 1]);
            assert(chars@.take(i as int).drop_last() =~= chars@.take(i - 1));
        }
        if chars[i - 1] == '/' {
            if i == 1 {
                return None;
            }
            let head = slice_subrange(chars.as_slice(), 0, i - 1);
            proof {
                assert(head@ =~= path@.take(i - 1));
            }
            return Some(text::string_of(head));
        }
        i -= 1;
    }
    None
}

/// How many slashes a path has.
pub open spec fn slashes(s: Seq<char>) -> nat
    decreases s.len(),
{
    if s.len() == 0 {
        0
    } else {
        slashes(s.drop_last()) + (if s.last() == '/' {
            1nat
        } else {
            0nat
        })
    }
}

/// How many slashes a path has.
pub(crate) fn count_slashes(s: &str) -> (n: usize)
    ensures
        n == slashes(s@),
{
    let chars = text::chars_of(s);
    let mut n: usize = 0;
    let mut i: usize = 0;
    while i < chars.len()
        invariant
            i <= chars@.len(),
            n == slashes(chars@.take(i as int)),
            n <= i,
        decreases chars@.len() - i,
    {
        proof {
            assert(chars@.take(i + 1).drop_last() =~= chars@.take(i as int));
            assert(chars@.take(i + 1).last() == chars@[i as int]);
        }
        if chars[i] == '/' {
            n += 1;
        }
        i += 1;
    }
    proof {
        assert(chars@.take(i as int) =~= s@);
    }
    n
}

/// Deeper directories first.
pub open spec fn deepest_first() -> spec_fn(Seq<char>, Seq<char>) -> bool {
    |a: Seq<char>, b: Seq<char>| slashes(a) >= slashes(b)
}

struct DeepestFirst;

impl Ranking<String> for DeepestFirst {
    open spec fn order() -> spec_fn(String, String) -> bool {
        |a: String, b: String| slashes(a@) >= slashes(b@)
    }

    proof fn laws() {
    }

    fn in_order(a: &String, b: &String) -> (r: bool) {
        count_slashes(a.as_str()) >= count_slashes(b.as_str())
    }
}

/// A list without the values that are equal to the one before them.
pub open spec fn without_repeats(s: Seq<Seq<char>>) -> Seq<Seq<char>>
    decreases s.len(),
{
    if s.len() <= 1 {
        s
    } else if s.last() == s[s.len() - 2] {
        without_repeats(s.drop_last())
    } else {
        without_repeats(s.drop_last()).push(s.last())
    }
}

/// The directories of the files that were put back, the deepest first.
pub open spec fn directories_of(restored: Seq<Seq<char>>) -> Seq<Seq<char>> {
    without_repeats(
        order::sorted(restored.filter_map(|p: Seq<char>| parent_path(p)), deepest_first()),
    )
}

/// The directories of the files that were put back, below the working
/// directory and the deepest first. Each may have been left empty.
pub fn prune_empty_parent_directories(restored: &Vec<String>) -> (out: Vec<String>)
    ensures
        out.deep_view() == directories_of(restored.deep_view()),
{
    let find = |p: &String| -> (r: Option<String>)
        ensures
            r.deep_view() == parent_path(p@),
        { parent_of(p.as_str()) };
    let parents = select_rows(restored, find, Ghost(|p: Seq<char>| parent_path(p)));
    let ghost f = |x: String| x.deep_view();
    let ghost found = parents.deep_view();
    proof {
        assert(parents.deep_view() =~= parents@.map_values(f));
        order::lemma_sorted_map(parents@, DeepestFirst::order(), f, deepest_first());
    }
    let sorted = order::sort::<String, DeepestFirst>(parents);
    let ghost all = sorted.deep_view();
    proof {
        assert(sorted.deep_view() =~= sorted@.map_values(f));
        assert(all == order::sorted(found, deepest_first()));
    }
    let mut out: Vec<String> = Vec::new();
    let mut i: usize = 0;
    proof {
        assert(out.deep_view() =~= without_repeats(all.take(0)));
    }
    while i < sorted.len()
        invariant
            i <= sorted@.len(),
            all == sorted.deep_view(),
            out.deep_view() == without_repeats(all.take(i as int)),
        decreases sorted@.len() - i,
    {
        let ghost before = out.deep_view();
        proof {
            assert(all[i as int] == sorted@[i as int].deep_view());
            assert(all.take(i + 1).drop_last() =~= all.take(i as int));
            assert(all.take(i + 1).last() == all[i as int]);
            if i > 0 {
                assert(all[i - 1] == sorted@[i - 1].deep_view());
                assert(all.take(i + 1)[i - 1] == all[i - 1]);
            }
        }
        let repeated = if i > 0 {
            let now = text::chars_of(sorted[i].as_str());
            text::equals(now.as_slice(), sorted[i - 1].as_str())
        } else {
            false
        };
        if !repeated {
            let name = sorted[i].clone();
            out.push(name);
            proof {
                assert(out.deep_view() =~= before.push(all[i as int]));
                if i == 0 {
                    assert(all.take(1) =~= before.push(all[0]));
                }
            }
        }
        i += 1;
    }
    proof {
        assert(all.take(i as int) =~= all);
    }
    out
}

/// The directory to try after one: the one it lies in, where the first was
/// empty and is gone.
pub fn next_directory(directory: &str, removed: bool) -> (r: Option<String>)
    ensures
        r.deep_view() == (if removed {
            parent_path(directory@)
        } else {
            None
        }),
{
    if removed {
        parent_of(directory)
    } else {
        None
    }
}

// ---------------------------------------------------------------------
// What going back to a checkpoint comes to
// ---------------------------------------------------------------------

/// The files below a working directory, the contents that are kept under
/// identifiers, and the files of the commit of the Git baseline.
pub struct World {
    pub files: Map<Seq<char>, Seq<u8>>,
    pub objects: Map<Seq<char>, Seq<u8>>,
    pub commit: Map<Seq<char>, Seq<u8>>,
}

/// What a file holds.
pub open spec fn file_in(w: World, path: Seq<char>) -> Option<Seq<u8>> {
    if w.files.contains_key(path) {
        Some(w.files[path])
    } else {
        None
    }
}

/// The state of a file, as it is recorded.
pub open spec fn state_in(w: World, path: Seq<char>) -> StateModel {
    match file_in(w, path) {
        Some(bytes) => StateModel::Object { object_id: content::content_id(bytes) },
        None => StateModel::Missing,
    }
}

/// What can be fetched for a state.
pub open spec fn stored_in(w: World, path: Seq<char>, state: StateModel) -> StoredModel {
    match state {
        StateModel::Missing => StoredModel::Absent,
        StateModel::Object { object_id } => if w.objects.contains_key(object_id) {
            StoredModel::Content(w.objects[object_id])
        } else {
            StoredModel::Absent
        },
        StateModel::Git => if w.commit.contains_key(path) {
            StoredModel::Content(w.commit[path])
        } else {
            StoredModel::Absent
        },
    }
}

/// Whether facts are those of a world.
pub open spec fn facts_are_of<S: Sight>(
    w: World,
    m: ManifestModel,
    facts: Seq<FactsModel<S::V>>,
) -> bool {
    facts.len() == m.entries.len() && forall|i: int|
        0 <= i < facts.len() ==> {
            let e = m.entries[i];
            let f = #[trigger] facts[i];
            &&& S::sees(f.sight, file_in(w, e.path))
            &&& f.original == stored_in(w, e.path, e.original)
            &&& e.expected is Some ==> f.expected == stored_in(w, e.path, e.expected->Some_0)
        }
}

/// Whether the content that a file had is kept.
pub open spec fn keeps(w: World, content: Option<Seq<u8>>) -> bool {
    match content {
        Some(bytes) => w.objects.contains_key(content::content_id(bytes))
            && w.objects[content::content_id(bytes)] == bytes,
        None => true,
    }
}

/// A world after a step.
pub open spec fn performed(w: World, step: StepModel) -> World {
    match step.action {
        ActionModel::Remove => World { files: w.files.remove(step.path), ..w },
        ActionModel::CopyObject { object_id } => World {
            files: w.files.insert(step.path, w.objects[object_id]),
            ..w
        },
        ActionModel::Write { content } => World { files: w.files.insert(step.path, content), ..w },
    }
}

/// A world after steps.
pub open spec fn performed_all(w: World, steps: Seq<StepModel>) -> World
    decreases steps.len(),
{
    if steps.len() == 0 {
        w
    } else {
        performed(performed_all(w, steps.drop_last()), steps.last())
    }
}

/// The step for the last of the first entries is performed last.
proof fn lemma_plan_step<S: Sight>(w: World, m: ManifestModel, facts: Seq<FactsModel<S::V>>, n: int)
    requires
        0 < n <= m.entries.len(),
        facts.len() == m.entries.len(),
        plan_of::<S>(m, facts, n).failed is None,
    ensures
        plan_of::<S>(m, facts, n - 1).failed is None,
        ({
            let now = performed_all(w, plan_of::<S>(m, facts, n).steps);
            let before = performed_all(w, plan_of::<S>(m, facts, n - 1).steps);
            &&& now.objects == w.objects
            &&& before.objects == w.objects
            &&& match planned::<S>(m.entries[n - 1], listing::uses_git::<S>(m), facts[n - 1]) {
                Ok(Some(action)) => now == performed(
                    before,
                    StepModel { path: m.entries[n - 1].path, action },
                ),
                Ok(None) => now == before,
                Err(_) => false,
            }
        }),
    decreases n,
{
    let before = plan_of::<S>(m, facts, n - 1);
    if n > 1 {
        if before.failed is None {
            lemma_plan_step::<S>(w, m, facts, n - 1);
        }
    }
    match planned::<S>(m.entries[n - 1], listing::uses_git::<S>(m), facts[n - 1]) {
        Ok(Some(action)) => {
            let step = StepModel { path: m.entries[n - 1].path, action };
            let steps = before.steps.push(step);
            assert(plan_of::<S>(m, facts, n).steps == steps);
            assert(steps.drop_last() =~= before.steps);
            assert(performed_all(w, steps) == performed(performed_all(w, before.steps), step));
        },
        Ok(None) => {
            assert(plan_of::<S>(m, facts, n) == before);
        },
        Err(_) => {},
    }
}

/// What the first entries of a manifest make of a file.
proof fn lemma_put_back<S: Sight>(
    w: World,
    m: ManifestModel,
    facts: Seq<FactsModel<S::V>>,
    path: Seq<char>,
    n: int,
)
    requires
        0 <= n <= m.entries.len(),
        facts.len() == m.entries.len(),
        manifest::paths_differ(m.entries),
        plan_of::<S>(m, facts, n).failed is None,
    ensures
        ({
            let now = performed_all(w, plan_of::<S>(m, facts, n).steps);
            &&& (forall|i: int|
                0 <= i < n && (#[trigger] m.entries[i]).path == path ==> !entry_is_planned::<S>(m, facts, i))
                ==> file_in(now, path) == file_in(w, path)
            &&& forall|i: int|
                0 <= i < n && (#[trigger] m.entries[i]).path == path && entry_is_planned::<S>(m, facts, i)
                    ==> file_in(now, path) == file_in(
                    performed(
                        w,
                        StepModel {
                            path,
                            action: planned::<S>(
                                m.entries[i],
                                listing::uses_git::<S>(m),
                                facts[i],
                            )->Ok_0->Some_0,
                        },
                    ),
                    path,
                )
        }),
    decreases n,
{
    if n > 0 {
        lemma_plan_step::<S>(w, m, facts, n);
        lemma_put_back::<S>(w, m, facts, path, n - 1);
        let e = m.entries[n - 1];
        if e.path == path {
            assert forall|i: int| 0 <= i < n - 1 implies (#[trigger] m.entries[i]).path != path by {
                assert(m.entries[i].path != m.entries[n - 1].path);
            }
        }
    }
}

/// Going back to a checkpoint gives a file back what it held first, where
/// the file still is what the recorded change left behind and the content
/// is still there.
pub proof fn law_restore_gives_back<S: Sight>(
    w: World,
    m: ManifestModel,
    facts: Seq<FactsModel<S::V>>,
    i: int,
)
    requires
        0 <= i < m.entries.len(),
        facts_are_of::<S>(w, m, facts),
        manifest::paths_differ(m.entries),
        restore_plan::<S>(m, facts).failed is None,
        sight::in_play(m.entries[i]),
        sight::drift::<S>(m.entries[i], listing::uses_git::<S>(m), facts[i]) == Ok::<
            Option<sight::ChangeType>,
            ErrorModel,
        >(None),
        m.entries[i].original matches StateModel::Object { object_id } ==> w.objects.contains_key(
            object_id,
        ),
    ensures
        file_in(
            performed_all(w, restore_plan::<S>(m, facts).steps),
            m.entries[i].path,
        ) == (match stored_in(w, m.entries[i].path, m.entries[i].original) {
            StoredModel::Content(bytes) => Some(bytes),
            _ => None,
        }),
{
    let n = m.entries.len() as int;
    let e = m.entries[i];
    lemma_put_back::<S>(w, m, facts, e.path, n);
    lemma_planned_all::<S>(m, facts, i, n);
    assert(entry_is_planned::<S>(m, facts, i));
}

/// In a plan without an error every entry could be planned.
proof fn lemma_planned_all<S: Sight>(
    m: ManifestModel,
    facts: Seq<FactsModel<S::V>>,
    i: int,
    n: int,
)
    requires
        0 <= i < n <= m.entries.len(),
        facts.len() == m.entries.len(),
        plan_of::<S>(m, facts, n).failed is None,
    ensures
        planned::<S>(m.entries[i], listing::uses_git::<S>(m), facts[i]) is Ok,
    decreases n,
{
    if i < n - 1 {
        assert(plan_of::<S>(m, facts, n - 1).failed is None);
        lemma_planned_all::<S>(m, facts, i, n - 1);
    }
}

/// Going back to a checkpoint changes no file but those that it recorded
/// and that still are what the recorded change left behind.
pub proof fn law_restore_leaves_the_rest<S: Sight>(
    w: World,
    m: ManifestModel,
    facts: Seq<FactsModel<S::V>>,
    path: Seq<char>,
)
    requires
        facts_are_of::<S>(w, m, facts),
        manifest::paths_differ(m.entries),
        restore_plan::<S>(m, facts).failed is None,
        forall|i: int|
            0 <= i < m.entries.len() && (#[trigger] m.entries[i]).path == path ==> !sight::in_play(
                m.entries[i],
            ) || sight::drift::<S>(m.entries[i], listing::uses_git::<S>(m), facts[i]) != Ok::<
                Option<sight::ChangeType>,
                ErrorModel,
            >(None),
    ensures
        file_in(performed_all(w, restore_plan::<S>(m, facts).steps), path) == file_in(
            w,
            path,
        ),
{
    lemma_put_back::<S>(w, m, facts, path, m.entries.len() as int);
}

/// A file that was recorded before and after a change gets back, when going
/// back to the checkpoint, what it held before the change.
pub proof fn law_recorded_change_is_taken_back<S: Sight>(
    before: World,
    after: World,
    m: ManifestModel,
    path: Seq<char>,
    facts: Seq<FactsModel<S::V>>,
)
    requires
        manifest::paths_differ(m.entries),
        manifest::wants_original(m, path),
        keeps(after, file_in(before, path)),
        keeps(after, file_in(after, path)),
        ({
            let whole = manifest::recorded_after(
                manifest::recorded(m, path, state_in(before, path)),
                path,
                state_in(after, path),
            );
            facts_are_of::<S>(after, whole, facts) && restore_plan::<S>(whole, facts).failed is None
        }),
    ensures
        ({
            let whole = manifest::recorded_after(
                manifest::recorded(m, path, state_in(before, path)),
                path,
                state_in(after, path),
            );
            file_in(
                performed_all(after, restore_plan::<S>(whole, facts).steps),
                path,
            ) == file_in(before, path)
        }),
{
    let one = manifest::recorded(m, path, state_in(before, path));
    let whole = manifest::recorded_after(one, path, state_in(after, path));
    manifest::lemma_entry_index(m.entries, path);
    let i = m.entries.len() as int;
    assert(one.entries[i].path == path);
    assert forall|j: int| 0 <= j < i implies (#[trigger] one.entries[j]).path != path by {
        assert(one.entries[j] == m.entries[j]);
    }
    manifest::lemma_entry_index_is(one.entries, path, i);
    assert(whole.entries[i].expected == Some(state_in(after, path)));
    assert(whole.entries[i].original == state_in(before, path));
    assert(manifest::paths_differ(whole.entries)) by {
        manifest::law_first_original_stays(
            m,
            path,
            state_in(before, path),
            state_in(after, path),
            path,
        );
        manifest::law_first_original_stays(
            one,
            path,
            state_in(before, path),
            state_in(after, path),
            path,
        );
    }
    assert(S::sees(facts[i].sight, file_in(after, path)));
    S::lemma_same(
        facts[i].sight,
        path,
        file_in(after, path),
        state_in(after, path),
        listing::uses_git::<S>(whole),
        facts[i].expected,
    );
    law_restore_gives_back::<S>(after, whole, facts, i);
}

/// A change that was found by comparing a working directory with its state
/// before a command is taken back when going back to the checkpoint.
pub proof fn law_captured_change_is_taken_back<S: Sight>(
    before: World,
    after: World,
    m: ManifestModel,
    path: Seq<char>,
    facts: Seq<FactsModel<S::V>>,
)
    requires
        manifest::paths_differ(m.entries),
        manifest::entry_index(m.entries, path) is None,
        path.len() > 0,
        !paths::skips(path),
        keeps(after, file_in(before, path)),
        keeps(after, file_in(after, path)),
        ({
            let whole = ManifestModel {
                entries: manifest::captured(
                    m.entries,
                    path,
                    state_in(before, path),
                    state_in(after, path),
                ),
                ..m
            };
            facts_are_of::<S>(after, whole, facts) && restore_plan::<S>(whole, facts).failed is None
        }),
    ensures
        ({
            let whole = ManifestModel {
                entries: manifest::captured(
                    m.entries,
                    path,
                    state_in(before, path),
                    state_in(after, path),
                ),
                ..m
            };
            file_in(
                performed_all(after, restore_plan::<S>(whole, facts).steps),
                path,
            ) == file_in(before, path)
        }),
{
    let whole = ManifestModel {
        entries: manifest::captured(m.entries, path, state_in(before, path), state_in(after, path)),
        ..m
    };
    let i = m.entries.len() as int;
    manifest::law_first_original_stays(
        m,
        path,
        state_in(before, path),
        state_in(after, path),
        path,
    );
    assert(whole.entries[i].expected == Some(state_in(after, path)));
    assert(S::sees(facts[i].sight, file_in(after, path)));
    S::lemma_same(
        facts[i].sight,
        path,
        file_in(after, path),
        state_in(after, path),
        listing::uses_git::<S>(whole),
        facts[i].expected,
    );
    law_restore_gives_back::<S>(after, whole, facts, i);
}

// ---------------------------------------------------------------------
// The preview and what it announces
// ---------------------------------------------------------------------

/// Whether a list of diffs shows a path.
pub open spec fn shows(diffs: Seq<DiffModel>, path: Seq<char>) -> bool {
    exists|k: int| 0 <= k < diffs.len() && (#[trigger] diffs[k]).path == path
}

/// Whether a plan puts a path back.
pub open spec fn puts_back(steps: Seq<StepModel>, path: Seq<char>) -> bool {
    exists|k: int| 0 <= k < steps.len() && (#[trigger] steps[k]).path == path
}

/// Whether the file of an entry is put back.
pub open spec fn entry_is_planned<S: Sight>(
    m: ManifestModel,
    facts: Seq<FactsModel<S::V>>,
    i: int,
) -> bool {
    let action = planned::<S>(m.entries[i], listing::uses_git::<S>(m), facts[i]);
    action is Ok && action->Ok_0 is Some
}

/// Whether diffs show the file of an entry, or it already is what it was
/// first.
pub open spec fn entry_is_shown<S: Sight>(
    m: ManifestModel,
    facts: Seq<FactsModel<S::V>>,
    diffs: Seq<DiffModel>,
    i: int,
) -> bool {
    let change = sight::change_since::<S>(m.entries[i], listing::uses_git::<S>(m), facts[i]);
    change is Ok && (change->Ok_0 is None || shows(diffs, m.entries[i].path))
}

proof fn lemma_preview<S: Sight>(
    id: Seq<char>,
    m: ManifestModel,
    facts: Seq<FactsModel<S::V>>,
    cache: Seq<CachedModel>,
    n: int,
)
    requires
        0 <= n <= m.entries.len() == facts.len(),
        listing::diffs_of::<S>(id, m, facts, false, cache, n).diffs is Ok,
        plan_of::<S>(m, facts, n).failed is None,
    ensures
        ({
            let found = listing::diffs_of::<S>(id, m, facts, false, cache, n).diffs->Ok_0;
            let steps = plan_of::<S>(m, facts, n).steps;
            &&& forall|k: int|
                0 <= k < found.len() ==> puts_back(steps, (#[trigger] found[k]).path)
            &&& forall|i: int|
                0 <= i < n && #[trigger] entry_is_planned::<S>(m, facts, i) ==> entry_is_shown::<S>(
                    m,
                    facts,
                    found,
                    i,
                )
        }),
    decreases n,
{
    if n > 0 {
        let before = listing::diffs_of::<S>(id, m, facts, false, cache, n - 1);
        assert(before.diffs is Ok);
        let plan_before = plan_of::<S>(m, facts, n - 1);
        assert(plan_before.failed is None);
        lemma_preview::<S>(id, m, facts, cache, n - 1);
        let e = m.entries[n - 1];
        let found = listing::diffs_of::<S>(id, m, facts, false, cache, n).diffs->Ok_0;
        let steps = plan_of::<S>(m, facts, n).steps;
        let git = listing::uses_git::<S>(m);
        assert forall|path: Seq<char>| puts_back(plan_before.steps, path) implies puts_back(
            steps,
            path,
        ) by {
            let k = choose|k: int|
                0 <= k < plan_before.steps.len() && (#[trigger] plan_before.steps[k]).path == path;
            assert(steps[k] == plan_before.steps[k]);
        }
        let shown = before.diffs->Ok_0;
        assert forall|path: Seq<char>| shows(shown, path) implies shows(found, path) by {
            let k = choose|k: int| 0 <= k < shown.len() && (#[trigger] shown[k]).path == path;
            assert(found[k] == shown[k]);
        }
        assert forall|k: int| 0 <= k < found.len() implies puts_back(
            steps,
            (#[trigger] found[k]).path,
        ) by {
            if k < shown.len() {
                assert(found[k] == shown[k]);
            } else {
                assert(steps[plan_before.steps.len() as int].path == e.path);
            }
        }
        assert forall|i: int|
            0 <= i < n && #[trigger] entry_is_planned::<S>(m, facts, i) implies entry_is_shown::<S>(
            m,
            facts,
            found,
            i,
        ) by {
            if i == n - 1 {
                if sight::change_since::<S>(e, git, facts[i])->Ok_0 is Some {
                    assert(found[shown.len() as int].path == e.path);
                }
            } else {
                assert(entry_is_shown::<S>(m, facts, shown, i));
            }
        }
    }
}

/// The preview shows the files that going back to the checkpoint puts back,
/// and no others: every file it shows is put back, and every file that is
/// put back and not shown already is what it was first.
pub proof fn law_preview_shows_what_is_put_back<S: Sight>(
    id: Seq<char>,
    m: ManifestModel,
    facts: Seq<FactsModel<S::V>>,
    cache: Seq<CachedModel>,
)
    requires
        facts.len() == m.entries.len(),
        listing::diff_list::<S>(id, m, facts, false, cache).diffs is Ok,
        restore_plan::<S>(m, facts).failed is None,
    ensures
        ({
            let shown = listing::diff_list::<S>(id, m, facts, false, cache).diffs->Ok_0;
            let steps = restore_plan::<S>(m, facts).steps;
            &&& forall|k: int|
                0 <= k < shown.len() ==> puts_back(steps, (#[trigger] shown[k]).path)
            &&& forall|i: int|
                0 <= i < m.entries.len() && #[trigger] entry_is_planned::<S>(m, facts, i)
                    ==> entry_is_shown::<S>(m, facts, shown, i)
        }),
{
    let n = m.entries.len() as int;
    let found = listing::diffs_of::<S>(id, m, facts, false, cache, n).diffs->Ok_0;
    let shown = order::sorted(found, listing::diffs_by_path());
    let steps = restore_plan::<S>(m, facts).steps;
    lemma_preview::<S>(id, m, facts, cache, n);
    lemma_sorting_shows_the_same(found);
    assert forall|k: int| 0 <= k < shown.len() implies puts_back(
        steps,
        (#[trigger] shown[k]).path,
    ) by {
        assert(shows(shown, shown[k].path));
        assert(shows(found, shown[k].path));
        let j = choose|j: int|
            0 <= j < found.len() && (#[trigger] found[j]).path == shown[k].path;
        assert(puts_back(steps, found[j].path));
    }
}

/// Whether the preview shows the file of an entry: the recorded change has
/// ended, the file still is what the change left behind, and it differs from
/// what it held first.
spec fn entry_in_preview<S: Sight>(m: ManifestModel, facts: Seq<FactsModel<S::V>>, i: int) -> bool {
    let git = listing::uses_git::<S>(m);
    let drift = sight::drift::<S>(m.entries[i], git, facts[i]);
    let change = sight::change_since::<S>(m.entries[i], git, facts[i]);
    sight::in_play(m.entries[i]) && drift is Ok && drift->Ok_0 is None && change is Ok
        && change->Ok_0 is Some
}

spec fn path_in_preview<S: Sight>(
    m: ManifestModel,
    facts: Seq<FactsModel<S::V>>,
    path: Seq<char>,
    n: int,
) -> bool {
    exists|i: int|
        0 <= i < n && #[trigger] entry_in_preview::<S>(m, facts, i) && m.entries[i].path == path
}

proof fn lemma_preview_paths<S: Sight>(
    id: Seq<char>,
    m: ManifestModel,
    facts: Seq<FactsModel<S::V>>,
    cache: Seq<CachedModel>,
    n: int,
)
    requires
        0 <= n <= m.entries.len() == facts.len(),
        listing::diffs_of::<S>(id, m, facts, false, cache, n).diffs is Ok,
    ensures
        forall|path: Seq<char>|
            shows(listing::diffs_of::<S>(id, m, facts, false, cache, n).diffs->Ok_0, path)
                == path_in_preview::<S>(m, facts, path, n),
        forall|i: int|
            0 <= i < n && sight::in_play(m.entries[i]) && (#[trigger] sight::drift::<S>(
                m.entries[i],
                listing::uses_git::<S>(m),
                facts[i],
            ) == Ok::<Option<sight::ChangeType>, ErrorModel>(None)) ==> sight::change_since::<S>(
                m.entries[i],
                listing::uses_git::<S>(m),
                facts[i],
            ) is Ok,
    decreases n,
{
    let found = listing::diffs_of::<S>(id, m, facts, false, cache, n).diffs->Ok_0;
    if n > 0 {
        let before = listing::diffs_of::<S>(id, m, facts, false, cache, n - 1);
        assert(before.diffs is Ok);
        lemma_preview_paths::<S>(id, m, facts, cache, n - 1);
        let shown = before.diffs->Ok_0;
        let e = m.entries[n - 1];
        assert forall|path: Seq<char>| shows(found, path) == path_in_preview::<S>(
            m,
            facts,
            path,
            n,
        ) by {
            if shows(shown, path) {
                let k = choose|k: int| 0 <= k < shown.len() && (#[trigger] shown[k]).path == path;
                assert(found[k] == shown[k]);
                assert(path_in_preview::<S>(m, facts, path, n - 1));
                let i = choose|i: int|
                    0 <= i < n - 1 && #[trigger] entry_in_preview::<S>(m, facts, i)
                        && m.entries[i].path == path;
                assert(entry_in_preview::<S>(m, facts, i));
            }
            if shows(found, path) && !shows(shown, path) {
                let k = choose|k: int| 0 <= k < found.len() && (#[trigger] found[k]).path == path;
                if k < shown.len() {
                    assert(found[k] == shown[k]);
                }
                assert(entry_in_preview::<S>(m, facts, n - 1));
            }
            if path_in_preview::<S>(m, facts, path, n) && !path_in_preview::<S>(
                m,
                facts,
                path,
                n - 1,
            ) {
                let i = choose|i: int|
                    0 <= i < n && #[trigger] entry_in_preview::<S>(m, facts, i)
                        && m.entries[i].path == path;
                assert(i == n - 1);
                assert(found[shown.len() as int].path == e.path);
            }
        }
    }
}

/// Whether steps can be performed in a world: what they copy is kept there.
pub open spec fn can_be_performed(w: World, steps: Seq<StepModel>) -> bool {
    forall|k: int|
        0 <= k < steps.len() ==> ((#[trigger] steps[k]).action matches ActionModel::CopyObject {
            object_id,
        } ==> w.objects.contains_key(object_id))
}

/// The file of an entry that is put back has its step in the plan.
proof fn lemma_step_of_entry<S: Sight>(
    m: ManifestModel,
    facts: Seq<FactsModel<S::V>>,
    i: int,
    n: int,
) -> (k: int)
    requires
        0 <= i < n <= m.entries.len(),
        facts.len() == m.entries.len(),
        plan_of::<S>(m, facts, n).failed is None,
        entry_is_planned::<S>(m, facts, i),
    ensures
        0 <= k < plan_of::<S>(m, facts, n).steps.len(),
        planned::<S>(m.entries[i], listing::uses_git::<S>(m), facts[i]) == Ok::<
            Option<ActionModel>,
            ErrorModel,
        >(Some(plan_of::<S>(m, facts, n).steps[k].action)),
    decreases n,
{
    let before = plan_of::<S>(m, facts, n - 1);
    assert(before.failed is None);
    if i == n - 1 {
        before.steps.len() as int
    } else {
        let k = lemma_step_of_entry::<S>(m, facts, i, n - 1);
        assert(plan_of::<S>(m, facts, n).steps[k] == before.steps[k]);
        k
    }
}

/// The preview shows exactly the files whose content going back to the
/// checkpoint changes, where going back can be done.
pub proof fn law_preview_shows_what_changes<S: Sight>(
    id: Seq<char>,
    w: World,
    m: ManifestModel,
    facts: Seq<FactsModel<S::V>>,
    cache: Seq<CachedModel>,
    path: Seq<char>,
)
    requires
        facts_are_of::<S>(w, m, facts),
        manifest::paths_differ(m.entries),
        listing::diff_list::<S>(id, m, facts, false, cache).diffs is Ok,
        restore_plan::<S>(m, facts).failed is None,
        can_be_performed(w, restore_plan::<S>(m, facts).steps),
    ensures
        shows(listing::diff_list::<S>(id, m, facts, false, cache).diffs->Ok_0, path) <==> file_in(
            performed_all(w, restore_plan::<S>(m, facts).steps),
            path,
        ) != file_in(w, path),
{
    let n = m.entries.len() as int;
    let git = listing::uses_git::<S>(m);
    let shown = listing::diff_list::<S>(id, m, facts, false, cache).diffs->Ok_0;
    let found = listing::diffs_of::<S>(id, m, facts, false, cache, n).diffs->Ok_0;
    lemma_preview_paths::<S>(id, m, facts, cache, n);
    lemma_sorting_shows_the_same(found);
    assert(shows(shown, path) == shows(found, path));
    assert(shows(found, path) == path_in_preview::<S>(m, facts, path, n));
    let none = Ok::<Option<sight::ChangeType>, ErrorModel>(None);
    if exists|i: int|
        0 <= i < n && (#[trigger] m.entries[i]).path == path && sight::in_play(m.entries[i])
            && sight::drift::<S>(m.entries[i], git, facts[i]) == none {
        let i = choose|i: int|
            0 <= i < n && (#[trigger] m.entries[i]).path == path && sight::in_play(m.entries[i])
                && sight::drift::<S>(m.entries[i], git, facts[i]) == none;
        let e = m.entries[i];
        lemma_planned_all::<S>(m, facts, i, n);
        let _ = lemma_step_of_entry::<S>(m, facts, i, n);
        law_restore_gives_back::<S>(w, m, facts, i);
        assert(sight::is_complete(e.original, facts[i].original));
        S::lemma_tells(
            facts[i].sight,
            e.path,
            file_in(w, path),
            e.original,
            git,
            facts[i].original,
        );
        assert(sight::change_since::<S>(e, git, facts[i]) is Ok);
        assert(sight::stored_content(facts[i].original) == file_in(
            performed_all(w, restore_plan::<S>(m, facts).steps),
            path,
        ));
        if sight::change_since::<S>(e, git, facts[i])->Ok_0 is Some {
            assert(entry_in_preview::<S>(m, facts, i));
            assert(path_in_preview::<S>(m, facts, path, n));
        } else {
            assert forall|j: int| 0 <= j < n && #[trigger] entry_in_preview::<S>(m, facts, j) implies m.entries[j].path
                != path by {
                if m.entries[j].path == path && j != i {
                    if i < j {
                        assert(m.entries[i].path != m.entries[j].path);
                    } else {
                        assert(m.entries[j].path != m.entries[i].path);
                    }
                }
            }
        }
    } else {
        law_restore_leaves_the_rest::<S>(w, m, facts, path);
        assert forall|j: int| 0 <= j < n && #[trigger] entry_in_preview::<S>(m, facts, j) implies m.entries[j].path
            != path by {
            if m.entries[j].path == path {
                assert(sight::drift::<S>(m.entries[j], git, facts[j]) == none);
            }
        }
    }
}

/// Whether the file of an entry differs from what it held first, and the
/// recorded change of it has ended.
pub open spec fn entry_differs<S: Sight>(
    m: ManifestModel,
    facts: Seq<FactsModel<S::V>>,
    i: int,
) -> bool {
    let change = sight::change_since::<S>(m.entries[i], listing::uses_git::<S>(m), facts[i]);
    sight::in_play(m.entries[i]) && change is Ok && change->Ok_0 is Some
}

/// Whether a path is that of an entry whose file differs.
pub open spec fn path_differs<S: Sight>(
    m: ManifestModel,
    facts: Seq<FactsModel<S::V>>,
    path: Seq<char>,
    n: int,
) -> bool {
    exists|i: int|
        0 <= i < n && #[trigger] entry_differs::<S>(m, facts, i) && m.entries[i].path == path
}

proof fn lemma_panel<S: Sight>(
    id: Seq<char>,
    m: ManifestModel,
    facts: Seq<FactsModel<S::V>>,
    cache: Seq<CachedModel>,
    n: int,
)
    requires
        0 <= n <= m.entries.len() == facts.len(),
        listing::diffs_of::<S>(id, m, facts, true, cache, n).diffs is Ok,
    ensures
        forall|path: Seq<char>|
            shows(listing::diffs_of::<S>(id, m, facts, true, cache, n).diffs->Ok_0, path)
                == path_differs::<S>(m, facts, path, n),
    decreases n,
{
    let found = listing::diffs_of::<S>(id, m, facts, true, cache, n).diffs->Ok_0;
    if n > 0 {
        let before = listing::diffs_of::<S>(id, m, facts, true, cache, n - 1);
        assert(before.diffs is Ok);
        lemma_panel::<S>(id, m, facts, cache, n - 1);
        let shown = before.diffs->Ok_0;
        let e = m.entries[n - 1];
        assert forall|path: Seq<char>| shows(found, path) == path_differs::<S>(m, facts, path, n) by {
            if shows(shown, path) {
                let k = choose|k: int| 0 <= k < shown.len() && (#[trigger] shown[k]).path == path;
                assert(found[k] == shown[k]);
                assert(path_differs::<S>(m, facts, path, n - 1));
                let i = choose|i: int|
                    0 <= i < n - 1 && #[trigger] entry_differs::<S>(m, facts, i)
                        && m.entries[i].path == path;
                assert(entry_differs::<S>(m, facts, i));
            }
            if shows(found, path) && !shows(shown, path) {
                let k = choose|k: int| 0 <= k < found.len() && (#[trigger] found[k]).path == path;
                if k < shown.len() {
                    assert(found[k] == shown[k]);
                }
                assert(entry_differs::<S>(m, facts, n - 1));
            }
            if path_differs::<S>(m, facts, path, n) && !path_differs::<S>(m, facts, path, n - 1) {
                let i = choose|i: int|
                    0 <= i < n && #[trigger] entry_differs::<S>(m, facts, i) && m.entries[i].path
                        == path;
                assert(i == n - 1);
                assert(found[shown.len() as int].path == e.path);
            }
        }
    }
}

/// The list of all changes shows every recorded file that differs from what
/// it held first, and no other: also those that were changed again since.
pub proof fn law_all_changes_are_shown<S: Sight>(
    id: Seq<char>,
    m: ManifestModel,
    facts: Seq<FactsModel<S::V>>,
    cache: Seq<CachedModel>,
    path: Seq<char>,
)
    requires
        facts.len() == m.entries.len(),
        listing::diff_list::<S>(id, m, facts, true, cache).diffs is Ok,
    ensures
        shows(listing::diff_list::<S>(id, m, facts, true, cache).diffs->Ok_0, path)
            == path_differs::<S>(m, facts, path, m.entries.len() as int),
{
    let n = m.entries.len() as int;
    lemma_panel::<S>(id, m, facts, cache, n);
    lemma_sorting_shows_the_same(listing::diffs_of::<S>(id, m, facts, true, cache, n).diffs->Ok_0);
}

/// Sorted diffs show the same paths.
proof fn lemma_sorting_shows_the_same(found: Seq<DiffModel>)
    ensures
        forall|path: Seq<char>|
            shows(order::sorted(found, listing::diffs_by_path()), path) == shows(found, path),
{
    broadcast use vstd::seq_lib::group_to_multiset_ensures;

    let shown = order::sorted(found, listing::diffs_by_path());
    lemma_diff_order();
    order::lemma_sorted(found, listing::diffs_by_path());
    assert forall|path: Seq<char>| shows(shown, path) implies shows(found, path) by {
        let k = choose|k: int| 0 <= k < shown.len() && (#[trigger] shown[k]).path == path;
        assert(shown.contains(shown[k]));
        assert(shown.to_multiset().count(shown[k]) > 0);
        assert(found.contains(shown[k]));
        let j = choose|j: int| 0 <= j < found.len() && found[j] == shown[k];
        assert(found[j].path == path);
    }
    assert forall|path: Seq<char>| shows(found, path) implies shows(shown, path) by {
        let k = choose|k: int| 0 <= k < found.len() && (#[trigger] found[k]).path == path;
        assert(found.contains(found[k]));
        assert(found.to_multiset().count(found[k]) > 0);
        assert(shown.contains(found[k]));
        let j = choose|j: int| 0 <= j < shown.len() && shown[j] == found[k];
        assert(shown[j].path == path);
    }
}

proof fn lemma_diff_order()
    ensures
        order::is_order(listing::diffs_by_path()),
{
    let le = listing::diffs_by_path();
    assert forall|a: DiffModel, b: DiffModel| #[trigger] le(a, b) || le(b, a) by {
        order::lemma_before_total(a.path, b.path);
    }
    assert forall|a: DiffModel, b: DiffModel, c: DiffModel| #[trigger] le(a, b) && #[trigger] le(
        b,
        c,
    ) implies le(a, c) by {
        order::lemma_not_after_transitive(a.path, b.path, c.path);
    }
}

} // verus!
