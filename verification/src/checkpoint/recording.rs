//! Which checkpoints record what happens in a working directory. One that is
//! gone, or that belongs to another directory, is passed over; this is never
//! an error, so that no tool is kept from running.

use vstd::prelude::*;
use crate::checkpoint::manifest;
use crate::checkpoint::manifest::{CheckpointManifest, ManifestModel, OriginalState, StateModel};

verus! {

/// Whether the directory of a manifest is a working directory. Both paths
/// are canonical.
pub open spec fn of_directory(root: Seq<char>) -> spec_fn(Seq<char>) -> bool {
    |recorded: Seq<char>| manifest::same_path(root, recorded)
}

/// The manifest that is recorded in: one that was found and belongs here.
pub open spec fn to_record(
    found: Option<ManifestModel>,
    here: spec_fn(Seq<char>) -> bool,
) -> Option<ManifestModel> {
    match found {
        Some(m) => if here(m.work_dir) {
            Some(m)
        } else {
            None
        },
        None => None,
    }
}

/// Whether one of the manifests that were found belongs here.
pub open spec fn some_belongs(
    found: Seq<Option<ManifestModel>>,
    here: spec_fn(Seq<char>) -> bool,
) -> bool {
    exists|i: int| 0 <= i < found.len() && to_record(#[trigger] found[i], here) is Some
}

/// The checkpoints whose manifests belong here.
pub open spec fn effective(
    ids: Seq<Seq<char>>,
    found: Seq<Option<ManifestModel>>,
    here: spec_fn(Seq<char>) -> bool,
) -> Seq<Seq<char>>
    decreases found.len(),
{
    if found.len() == 0 {
        Seq::empty()
    } else {
        let n = found.len() - 1;
        let before = effective(ids, found.take(n), here);
        if to_record(found[n], here) is Some {
            before.push(ids[n])
        } else {
            before
        }
    }
}

/// Tells whether one of the manifests belongs here.
pub(crate) fn find_belonging<F: Fn(&String) -> bool>(
    found: &Vec<Option<CheckpointManifest>>,
    test: F,
    here: Ghost<spec_fn(Seq<char>) -> bool>,
) -> (r: bool)
    requires
        forall|dir: &String| call_requires(test, (dir,)),
        forall|dir: &String, b: bool|
            call_ensures(test, (dir,), b) ==> b == (here@)(dir@),
    ensures
        r == some_belongs(found.deep_view(), here@),
{
    let ghost all = found.deep_view();
    let mut i: usize = 0;
    while i < found.len()
        invariant
            i <= found@.len(),
            all == found.deep_view(),
            forall|dir: &String| call_requires(test, (dir,)),
            forall|dir: &String, b: bool|
                call_ensures(test, (dir,), b) ==> b == (here@)(dir@),
            forall|j: int| 0 <= j < i ==> to_record(#[trigger] all[j], here@) is None,
        decreases found@.len() - i,
    {
        proof {
            assert(all[i as int] == found@[i as int].deep_view());
        }
        match &found[i] {
            Some(m) => {
                if test(&m.work_dir) {
                    proof {
                        assert(to_record(all[i as int], here@) is Some);
                    }
                    return true;
                }
            },
            None => {},
        }
        i += 1;
    }
    false
}

/// Collects the checkpoints whose manifests belong here.
pub(crate) fn keep_effective<F: Fn(&String) -> bool>(
    ids: &Vec<String>,
    found: &Vec<Option<CheckpointManifest>>,
    test: F,
    here: Ghost<spec_fn(Seq<char>) -> bool>,
) -> (out: Vec<String>)
    requires
        found@.len() <= ids@.len(),
        forall|dir: &String| call_requires(test, (dir,)),
        forall|dir: &String, b: bool|
            call_ensures(test, (dir,), b) ==> b == (here@)(dir@),
    ensures
        out.deep_view() == effective(ids.deep_view(), found.deep_view(), here@),
{
    let ghost all = found.deep_view();
    let ghost names = ids.deep_view();
    let mut out: Vec<String> = Vec::new();
    let mut i: usize = 0;
    proof {
        assert(out.deep_view() =~= effective(names, all.take(0), here@));
    }
    while i < found.len()
        invariant
            i <= found@.len() <= ids@.len(),
            all == found.deep_view(),
            names == ids.deep_view(),
            forall|dir: &String| call_requires(test, (dir,)),
            forall|dir: &String, b: bool|
                call_ensures(test, (dir,), b) ==> b == (here@)(dir@),
            out.deep_view() == effective(names, all.take(i as int), here@),
        decreases found@.len() - i,
    {
        let ghost before = out.deep_view();
        proof {
            assert(all[i as int] == found@[i as int].deep_view());
            assert(names[i as int] == ids@[i as int]@);
            assert(all.take(i + 1).take(i as int) =~= all.take(i as int));
            assert(all.take(i + 1)[i as int] == all[i as int]);
        }
        match &found[i] {
            Some(m) => {
                if test(&m.work_dir) {
                    out.push(ids[i].clone());
                    proof {
                        assert(out.deep_view() =~= before.push(names[i as int]));
                    }
                }
            },
            None => {},
        }
        i += 1;
    }
    proof {
        assert(all.take(i as int) =~= all);
    }
    out
}

/// Gives the manifest that is recorded in: one that was found and belongs to
/// the working directory.
pub fn validate_capture_work_dir(found: Option<CheckpointManifest>, root: &str) -> (r: Option<
    CheckpointManifest,
>)
    ensures
        r.deep_view() == to_record(found.deep_view(), of_directory(root@)),
{
    match found {
        Some(m) => match m.validate_manifest_work_dir(root) {
            Ok(_) => Some(m),
            Err(_) => None,
        },
        None => None,
    }
}

/// The checkpoints that record in a working directory, of those whose
/// manifests were looked for.
pub fn effective_checkpoints(
    ids: &Vec<String>,
    found: &Vec<Option<CheckpointManifest>>,
    root: &str,
) -> (out: Vec<String>)
    requires
        found@.len() <= ids@.len(),
    ensures
        out.deep_view() == effective(ids.deep_view(), found.deep_view(), of_directory(root@)),
{
    let test = |recorded: &String| -> (b: bool)
        ensures
            b == of_directory(root@)(recorded@),
        { manifest::is_same_path(root, recorded.as_str()) };
    keep_effective(ids, found, test, Ghost(of_directory(root@)))
}

/// What recording a file in a checkpoint takes: nothing is to be done, what
/// the file holds must be fetched first, or the manifest is to be written.
pub enum FileStep {
    Leave,
    Ask,
    Write(CheckpointManifest),
}

/// The mathematical form of a step.
pub enum FileStepModel {
    Leave,
    Ask,
    Write(ManifestModel),
}

impl DeepView for FileStep {
    type V = FileStepModel;

    open spec fn deep_view(&self) -> FileStepModel {
        match self {
            FileStep::Leave => FileStepModel::Leave,
            FileStep::Ask => FileStepModel::Ask,
            FileStep::Write(m) => FileStepModel::Write(m.deep_view()),
        }
    }
}

/// What recording a file takes, before or after a tool changes it.
pub open spec fn file_step(
    found: Option<ManifestModel>,
    here: spec_fn(Seq<char>) -> bool,
    path: Seq<char>,
    state: Option<StateModel>,
    after: bool,
) -> FileStepModel {
    match to_record(found, here) {
        None => FileStepModel::Leave,
        Some(m) => {
            let wanted = if after {
                manifest::wants_expected(m, path)
            } else {
                manifest::wants_original(m, path)
            };
            match state {
                _ if !wanted => FileStepModel::Leave,
                None => FileStepModel::Ask,
                Some(s) => FileStepModel::Write(
                    if after {
                        manifest::recorded_after(m, path, s)
                    } else {
                        manifest::recorded(m, path, s)
                    },
                ),
            }
        },
    }
}

/// Records a file in the manifest of a checkpoint that records here.
pub(crate) fn record_in(
    chosen: Option<CheckpointManifest>,
    path: &str,
    state: Option<OriginalState>,
    after: bool,
) -> (r: FileStep)
    ensures
        r.deep_view() == file_step(
            chosen.deep_view(),
            |recorded: Seq<char>| true,
            path@,
            state.deep_view(),
            after,
        ),
{
    match chosen {
        None => FileStep::Leave,
        Some(mut m) => {
            let wanted = if after {
                m.needs_expected(path)
            } else {
                m.needs_original(path)
            };
            if !wanted {
                return FileStep::Leave;
            }
            match state {
                None => FileStep::Ask,
                Some(s) => {
                    if after {
                        m.record_checkpoint_file_after(path, s);
                    } else {
                        m.record_checkpoint_file(path, s);
                    }
                    FileStep::Write(m)
                },
            }
        },
    }
}

/// Records a file before, or after, a tool changes it, in the manifest that
/// was found of a checkpoint. It asks for what the file holds where that is
/// needed; given that, it is called again.
pub fn record_file(
    found: Option<CheckpointManifest>,
    root: &str,
    path: &str,
    state: Option<OriginalState>,
    after: bool,
) -> (r: FileStep)
    ensures
        r.deep_view() == file_step(
            found.deep_view(),
            of_directory(root@),
            path@,
            state.deep_view(),
            after,
        ),
{
    record_in(validate_capture_work_dir(found, root), path, state, after)
}

/// The manifest that is there after a file was recorded.
pub open spec fn kept_after(
    found: Option<ManifestModel>,
    here: spec_fn(Seq<char>) -> bool,
    path: Seq<char>,
    state: StateModel,
    after: bool,
) -> Option<ManifestModel> {
    match file_step(found, here, path, Some(state), after) {
        FileStepModel::Write(m) => Some(m),
        _ => found,
    }
}

/// Recording a file before it is changed once more changes nothing: the
/// entry keeps what the file held first. For a checkpoint that is gone no
/// manifest is made, and the manifest of one that belongs elsewhere stays.
pub proof fn law_recording_again_changes_nothing(
    found: Option<ManifestModel>,
    here: spec_fn(Seq<char>) -> bool,
    path: Seq<char>,
    first: StateModel,
    second: StateModel,
)
    ensures
        ({
            let once = kept_after(found, here, path, first, false);
            &&& kept_after(once, here, path, second, false) == once
            &&& file_step(once, here, path, None, false) is Leave
        }),
        to_record(found, here) is None ==> kept_after(found, here, path, first, false) == found
            && kept_after(found, here, path, first, true) == found,
{
}

} // verus!
