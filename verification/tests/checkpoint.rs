use std::collections::BTreeMap;

use snow_storage::checkpoint::after::{NodeStat, Observed, RecordEnd, StateReply, Verdict};
use snow_storage::checkpoint::baseline::{self, GitRun};
use snow_storage::checkpoint::before::{
    capture_worktree_before_git, copy_reply, CaptureEnd, CaptureFacts, CheckpointWorktreeCapture, CopyReply,
    FingerprintCache, ListedFile, ListingReply, ListingSource, WorktreeListing,
};
use snow_storage::checkpoint::content::{self, FileRead};
use snow_storage::checkpoint::listing::{
    list_checkpoint_changes, original_digest, CachedCheckpointDiff, DiffCache,
};
use snow_storage::checkpoint::manifest::{CheckpointEntry, CheckpointManifest, GitBaseline, OriginalState};
use snow_storage::checkpoint::paths::{self, ManifestPlace, PathLook, PathStep};
use snow_storage::checkpoint::recording::{self, FileStep};
use snow_storage::checkpoint::remote::{
    self, IgnoreAnswers, RemoteFileStat, RemoteRead, RemoteSight, RemoteTreeEntry,
};
use snow_storage::checkpoint::restore::{
    next_directory, parent_of, prune_empty_parent_directories, restore_checkpoint, RestoreAction,
};
use snow_storage::checkpoint::sight::{stored_object, ChangeType, EntryFacts, FileStat, LocalSight, Sight, Stored};
use snow_storage::checkpoint::walk::{WalkEntry, WorktreeWalk};
use snow_storage::config::json::{self, Json};
use snow_storage::error::StorageError;

fn s(x: &str) -> String {
    x.to_string()
}

fn names(list: &[&str]) -> Vec<String> {
    list.iter().map(|x| x.to_string()).collect()
}

// ---------------------------------------------------------------------
// Paths
// ---------------------------------------------------------------------

#[test]
fn heavy_directories_are_skipped() {
    assert!(paths::should_skip_relative("a/node_modules/b"));
    assert!(paths::should_skip_relative(".git"));
    assert!(paths::should_skip_relative("web/.parcel-cache/x"));
    assert!(!paths::should_skip_relative("src/builds/x"));
    assert!(!paths::should_skip_relative(""));
    assert!(paths::should_skip_manifest_path("target/x"));
    assert!(!paths::should_skip_manifest_path("\0abs:/home/target/x"));
}

#[test]
fn windows_prefixes_are_stripped() {
    assert_eq!(paths::strip_windows_extended_prefix("\\\\?\\D:\\repo"), "D:\\repo");
    assert_eq!(paths::strip_windows_extended_prefix("\\\\?\\UNC\\server\\share"), "\\\\server\\share");
    assert_eq!(paths::strip_windows_extended_prefix("/plain"), "/plain");
    assert_eq!(paths::path_key("\\\\?\\D:\\Repo\\", true), "d:/repo");
    assert_eq!(paths::path_key("///", false), "/");
    assert!(paths::is_path_within_root("D:\\repo\\a", "\\\\?\\D:\\repo", false));
    assert!(!paths::is_path_within_root("D:\\repository", "D:\\repo", false));
}

#[test]
fn missing_files_are_resolved_by_their_directory() {
    let there = PathLook::At(s("/real/f"));
    match paths::resolve_path_for_checkpoint("/w/f", &there, &None) {
        PathStep::Resolved { path } => assert_eq!(path, "/real/f"),
        _ => panic!("the file is there"),
    }
    match paths::resolve_path_for_checkpoint("/w/f", &PathLook::Failed(s("denied")), &None) {
        PathStep::Failed(e) => assert_eq!(e.reason, "Failed to resolve checkpoint path '/w/f': denied"),
        _ => panic!("the error is passed on"),
    }
    let path = "/w/./a/../new/f.txt";
    match paths::resolve_path_for_checkpoint(path, &PathLook::Nothing, &None) {
        PathStep::AskParent { parent } => assert_eq!(parent, "/w/new"),
        _ => panic!("the directory is asked for"),
    }
    let found = Some(PathLook::At(s("/real/new")));
    match paths::resolve_path_for_checkpoint(path, &PathLook::Nothing, &found) {
        PathStep::Below { directory, name } => {
            assert_eq!((directory.as_str(), name.as_str()), ("/real/new", "f.txt"))
        }
        _ => panic!("the directory is there"),
    }
    match paths::resolve_path_for_checkpoint(path, &PathLook::Nothing, &Some(PathLook::Nothing)) {
        PathStep::Resolved { path } => assert_eq!(path, "/w/new/f.txt"),
        _ => panic!("nothing is there"),
    }
    let failed = Some(PathLook::Failed(s("loop")));
    match paths::resolve_path_for_checkpoint(path, &PathLook::Nothing, &failed) {
        PathStep::Failed(e) => {
            assert_eq!(e.reason, "Failed to resolve checkpoint path parent '/w/new': loop")
        }
        _ => panic!("the error is passed on"),
    }
    match paths::resolve_path_for_checkpoint("/f", &PathLook::Nothing, &None) {
        PathStep::AskParent { parent } => assert_eq!(parent, "/"),
        _ => panic!("the root is asked for"),
    }
    for alone in ["f", "/", ""] {
        match paths::resolve_path_for_checkpoint(alone, &PathLook::Nothing, &None) {
            PathStep::Resolved { path } => assert_eq!(path, alone),
            _ => panic!("there is no directory to ask for"),
        }
    }
}

#[test]
fn files_are_named_from_the_working_directory() {
    assert_eq!(paths::resolve_checkpoint_path("/w", "/w/src/a.rs", false), "src/a.rs");
    assert_eq!(paths::resolve_checkpoint_path("/w", "/w", false), "");
    assert_eq!(paths::resolve_checkpoint_path("/w", "/home/x", false), "\0abs:/home/x");
    match paths::resolve_manifest_path("\0abs:/home/x") {
        ManifestPlace::Outside(p) => assert_eq!(p, "/home/x"),
        ManifestPlace::Inside(_) => panic!("it lies outside"),
    }
    match paths::resolve_manifest_path("src/a.rs") {
        ManifestPlace::Inside(p) => assert_eq!(p, "src/a.rs"),
        ManifestPlace::Outside(_) => panic!("it lies inside"),
    }
}

#[test]
fn paths_are_normalized() {
    for (path, plain) in [
        ("/a/./b/../c", "/a/c"),
        ("a//b/", "a/b"),
        ("../x", "x"),
        ("/..", "/"),
        ("", ""),
        ("a/b/../..", ""),
    ] {
        assert_eq!(paths::normalize_path(path), plain, "{path}");
    }
    assert_eq!(paths::relative_to("/a/b/c", "/a").as_deref(), Some("b/c"));
    assert_eq!(paths::relative_to("/a", "/a").as_deref(), Some(""));
    assert_eq!(paths::relative_to("/ab", "/a"), None);
    assert_eq!(paths::relative_to("a", "/a"), None);
    assert_eq!(paths::relative_to("./a/b", "./a").as_deref(), Some("b"));
    assert_eq!(paths::relative_to("./a", "a"), None);
    assert_eq!(paths::relative_to("/./a", "/a").as_deref(), Some(""));
    assert_eq!(paths::generate_checkpoint_id(12, 3, 0), "cp-12-3-0");
}

// ---------------------------------------------------------------------
// Manifests
// ---------------------------------------------------------------------

fn manifest() -> CheckpointManifest {
    CheckpointManifest::create_checkpoint(s("/w"), None)
}

fn object(id: &str) -> OriginalState {
    OriginalState::Object { object_id: s(id) }
}

fn state_name(state: &OriginalState) -> String {
    match state {
        OriginalState::Missing => s("missing"),
        OriginalState::Object { object_id } => object_id.clone(),
        OriginalState::Git => s("git"),
    }
}

#[test]
fn the_first_original_stays() {
    let mut m = manifest();
    assert!(m.needs_original("a"));
    m.record_checkpoint_file("a", object("1"));
    assert!(!m.needs_original("a"));
    m.record_checkpoint_file("a", object("2"));
    assert_eq!(m.entries.len(), 1);
    assert_eq!(state_name(&m.entries[0].original), "1");
    assert!(m.entries[0].expected.is_none());
    m.record_checkpoint_file_after("a", object("3"));
    assert_eq!(state_name(m.entries[0].expected.as_ref().unwrap()), "3");
    m.capture_entry("a", object("9"), object("4"));
    assert_eq!(state_name(&m.entries[0].original), "1");
    assert_eq!(state_name(m.entries[0].expected.as_ref().unwrap()), "4");
    m.record_checkpoint_file_after("b", object("3"));
    assert_eq!(m.entries.len(), 1);
    m.record_checkpoint_file("node_modules/x", object("1"));
    m.record_checkpoint_file("", object("1"));
    assert_eq!(m.entries.len(), 1);
}

#[test]
fn manifests_are_accepted_for_their_directory() {
    let mut m = manifest();
    assert!(m.validate_manifest_work_dir("/w/").is_ok());
    let e = m.validate_manifest_work_dir("/x").unwrap_err();
    assert_eq!(e.reason, "Checkpoint belongs to '/w', not '/x'");
    m.version = 1;
    let e = m.check_version().unwrap_err();
    assert_eq!(e.reason, "Unsupported checkpoint format version: 1");
    let e = CheckpointManifest::open_checkpoint(Some(m), "/w").err().unwrap();
    assert_eq!(e.reason, "Unsupported checkpoint format version: 1");
    assert!(matches!(CheckpointManifest::open_checkpoint(None, "/w"), Ok(None)));
    let e = CheckpointManifest::open_checkpoint(Some(manifest()), "/y").err().unwrap();
    assert_eq!(e.reason, "Checkpoint belongs to '/w', not '/y'");
}

// ---------------------------------------------------------------------
// Content
// ---------------------------------------------------------------------

#[test]
fn content_is_kept_under_its_blake3_hash() {
    assert_eq!(
        content::object_id(b""),
        "af1349b9f5f9a1a6a0404dea36dcc9499bcb25c9adc112b7cc9a93cae41f3262"
    );
    assert_ne!(content::object_id(b"a"), content::object_id(b"b"));
    let state = content::current_state("p", &FileRead::Content(vec![])).unwrap();
    assert!(state_name(&state).starts_with("af1349b9"));
    let e = content::current_state("p", &FileRead::NotRegular).err().unwrap();
    assert_eq!(e.reason, "Checkpoint path is not a regular file: p");
    let e = content::current_state("p", &FileRead::Failed(s("denied"))).err().unwrap();
    assert_eq!(e.reason, "Failed to read checkpoint source 'p': denied");
    let e = content::read_current_content("p", &FileRead::Failed(s("denied"))).err().unwrap();
    assert_eq!(e.reason, "Failed to read current checkpoint file 'p': denied");
}

#[test]
fn diffs_are_unified() {
    let before = b"one\ntwo\nthree\n".to_vec();
    let after = b"one\n2\nthree\n".to_vec();
    let (text, binary) = content::build_unified_diff("f.txt", Some(&before), Some(&after));
    assert!(!binary);
    assert_eq!(text, "--- a/f.txt\n+++ b/f.txt\n@@ -1,3 +1,3 @@\n one\n-two\n+2\n three\n");
    let (text, _) = content::build_unified_diff("f.txt", None, Some(&after));
    assert!(text.starts_with("--- /dev/null\n+++ b/f.txt\n"));
    let (text, _) = content::build_unified_diff("f.txt", Some(&before), None);
    assert!(text.contains("+++ /dev/null\n"));
}

#[test]
fn line_ends_and_binaries_show_no_diff() {
    let unix = b"a\nb\n".to_vec();
    let windows = b"a\r\nb\r\n".to_vec();
    assert_eq!(content::build_unified_diff("f", Some(&unix), Some(&windows)), (s(""), false));
    assert_eq!(content::normalize_lines("a\r\r\nb\r"), "a\r\nb\r");
    let zero = vec![0u8, 1];
    assert_eq!(content::build_unified_diff("f", Some(&unix), Some(&zero)), (s(""), true));
    let wrong = vec![0xffu8];
    assert_eq!(content::build_unified_diff("f", Some(&wrong), None), (s(""), true));
}

// ---------------------------------------------------------------------
// A working directory in memory
// ---------------------------------------------------------------------

#[derive(Default)]
struct Disk {
    files: BTreeMap<String, Vec<u8>>,
    objects: BTreeMap<String, Vec<u8>>,
}

impl Disk {
    fn write(&mut self, path: &str, content: &str) {
        self.files.insert(s(path), content.as_bytes().to_vec());
    }

    fn text(&self, path: &str) -> Option<String> {
        self.files.get(path).map(|b| String::from_utf8(b.clone()).unwrap())
    }

    fn read(&self, path: &str) -> FileRead {
        match self.files.get(path) {
            Some(b) => FileRead::Content(b.clone()),
            None => FileRead::Missing,
        }
    }

    /// The state of a file, with its content kept.
    fn keep(&mut self, path: &str) -> OriginalState {
        let read = self.read(path);
        let state = content::current_state(path, &read).unwrap();
        if let (OriginalState::Object { object_id }, FileRead::Content(b)) = (&state, read) {
            self.objects.insert(object_id.clone(), b);
        }
        state
    }

    fn stored(&self, state: &OriginalState) -> Stored {
        match state {
            OriginalState::Object { object_id } => {
                let read = self.objects.get(object_id).cloned().ok_or(s("gone"));
                stored_object(object_id, read)
            }
            _ => Stored::Absent,
        }
    }

    fn facts(&self, m: &CheckpointManifest) -> Vec<EntryFacts<LocalSight>> {
        m.entries
            .iter()
            .map(|e| EntryFacts {
                sight: LocalSight {
                    place: e.path.clone(),
                    stat: self.files.get(&e.path).map(|b| FileStat { mtime_ms: 1, size: b.len() as u64 }),
                    read: self.read(&e.path),
                },
                expected: match &e.expected {
                    Some(x) => self.stored(x),
                    None => Stored::Absent,
                },
                original: self.stored(&e.original),
            })
            .collect()
    }

    fn restore(&mut self, m: &CheckpointManifest) -> Vec<String> {
        let plan = restore_checkpoint(m, &self.facts(m));
        assert!(plan.failed.is_none());
        let mut done = vec![];
        for step in plan.steps {
            match step.action {
                RestoreAction::Remove => {
                    self.files.remove(&step.path);
                }
                RestoreAction::CopyObject { object_id } => {
                    let b = self.objects[&object_id].clone();
                    self.files.insert(step.path.clone(), b);
                }
                RestoreAction::Write { content } => {
                    self.files.insert(step.path.clone(), content);
                }
            }
            done.push(step.path);
        }
        done
    }
}

#[test]
fn a_recorded_change_is_taken_back() {
    let mut disk = Disk::default();
    disk.write("a", "old");
    disk.write("gone", "there");
    let mut m = manifest();
    for path in ["a", "new", "gone"] {
        let state = disk.keep(path);
        m.record_checkpoint_file(path, state);
    }
    disk.write("a", "changed");
    disk.write("new", "made");
    disk.files.remove("gone");
    for path in ["a", "new", "gone"] {
        let state = disk.keep(path);
        m.record_checkpoint_file_after(path, state);
    }
    let changes = list_checkpoint_changes(&m, &disk.facts(&m)).unwrap();
    let shown: Vec<(String, String)> = changes.into_iter().map(|c| (c.path, c.change_type)).collect();
    assert_eq!(
        shown,
        vec![(s("a"), s("modified")), (s("gone"), s("deleted")), (s("new"), s("added"))]
    );
    assert_eq!(disk.restore(&m).len(), 3);
    assert_eq!(disk.text("a").as_deref(), Some("old"));
    assert_eq!(disk.text("new"), None);
    assert_eq!(disk.text("gone").as_deref(), Some("there"));
}

#[test]
fn a_file_that_was_changed_again_is_left_alone() {
    let mut disk = Disk::default();
    disk.write("a", "old");
    disk.write("b", "old b");
    let mut m = manifest();
    for path in ["a", "b"] {
        let state = disk.keep(path);
        m.record_checkpoint_file(path, state);
    }
    disk.write("a", "tool");
    disk.write("b", "tool b");
    for path in ["a", "b"] {
        let state = disk.keep(path);
        m.record_checkpoint_file_after(path, state);
    }
    disk.write("a", "by hand");
    let mut cache = DiffCache::new();
    let preview = cache.list_checkpoint_diffs("cp", &m, &disk.facts(&m), false).unwrap();
    assert_eq!(preview.len(), 1);
    assert_eq!(preview[0].path, "b");
    let all = cache.list_checkpoint_diffs("cp", &m, &disk.facts(&m), true).unwrap();
    assert_eq!(all.len(), 2);
    assert_eq!(disk.restore(&m), names(&["b"]));
    assert_eq!(disk.text("a").as_deref(), Some("by hand"));
    assert_eq!(disk.text("b").as_deref(), Some("old b"));
}

#[test]
fn a_change_that_has_not_ended_is_not_taken_back() {
    let mut disk = Disk::default();
    disk.write("a", "old");
    let mut m = manifest();
    let state = disk.keep("a");
    m.record_checkpoint_file("a", state);
    disk.write("a", "half");
    assert!(disk.restore(&m).is_empty());
    assert!(list_checkpoint_changes(&m, &disk.facts(&m)).unwrap().is_empty());
}

#[test]
fn entries_of_git_need_a_baseline() {
    let mut m = manifest();
    m.entries.push(CheckpointEntry { path: s("a"), original: OriginalState::Git, expected: Some(OriginalState::Missing) });
    let facts = vec![EntryFacts {
        sight: LocalSight { place: s("/w/a"), stat: None, read: FileRead::Missing },
        expected: Stored::Absent,
        original: Stored::Absent,
    }];
    let plan = restore_checkpoint(&m, &facts);
    assert_eq!(plan.failed.unwrap().reason, "Checkpoint Git baseline is missing");
    m.git = Some(GitBaseline { repository_root: s("/w"), work_dir_prefix: s(""), head: s("h") });
    let plan = restore_checkpoint(&m, &facts);
    assert_eq!(plan.failed.unwrap().reason, "Checkpoint Git object is missing for 'a'");
    let facts = vec![EntryFacts {
        sight: LocalSight { place: s("/w/a"), stat: None, read: FileRead::Missing },
        expected: Stored::Absent,
        original: Stored::Content(b"x".to_vec()),
    }];
    let plan = restore_checkpoint(&m, &facts);
    assert!(matches!(&plan.steps[0].action, RestoreAction::Write { content } if content == b"x"));
}

#[test]
fn remembered_diffs_are_used_while_nothing_changes() {
    let mut disk = Disk::default();
    disk.write("a", "old\n");
    let mut m = manifest();
    let state = disk.keep("a");
    m.record_checkpoint_file("a", state);
    disk.write("a", "new\n");
    let state = disk.keep("a");
    m.record_checkpoint_file_after("a", state);
    let digest = original_digest(&m.entries[0].original, &m.git, "a");
    assert!(digest.starts_with("obj:"));
    let mut cache = DiffCache::new();
    cache.remember(CachedCheckpointDiff {
        key: s("cp:a"),
        original_digest: digest,
        current_mtime_ms: 1,
        current_size: 4,
        content: s("from memory"),
        is_binary: false,
    });
    let diffs = cache.list_checkpoint_diffs("cp", &m, &disk.facts(&m), false).unwrap();
    assert_eq!(diffs[0].content, "from memory");
    cache.forget(&names(&["c"]));
    assert_eq!(cache.diffs.len(), 1);
    cache.forget(&names(&["x", "cp"]));
    assert_eq!(cache.diffs.len(), 0);
    let diffs = cache.list_checkpoint_diffs("cp", &m, &disk.facts(&m), false).unwrap();
    assert!(diffs[0].content.contains("-old\n+new\n"));
    assert_eq!(cache.diffs.len(), 1);
}

#[test]
fn too_many_remembered_diffs_are_forgotten() {
    let mut cache = DiffCache::new();
    let diff = |k: String| CachedCheckpointDiff {
        key: k,
        original_digest: s(""),
        current_mtime_ms: 0,
        current_size: 0,
        content: s(""),
        is_binary: false,
    };
    for i in 0..2048 {
        cache.remember(diff(format!("{i}")));
    }
    assert_eq!(cache.diffs.len(), 2048);
    cache.remember(diff(s("0")));
    assert_eq!(cache.diffs.len(), 1);
}

#[test]
fn empty_directories_are_tried_from_the_deepest() {
    let dirs = prune_empty_parent_directories(&names(&["a/b/c/x", "a/y", "top", "a/b/c/z", "d/e/q"]));
    assert_eq!(dirs, names(&["a/b/c", "d/e", "a"]));
    assert_eq!(next_directory("a/b/c", true).as_deref(), Some("a/b"));
    assert_eq!(next_directory("a", true), None);
    assert_eq!(next_directory("a/b", false), None);
    assert_eq!(parent_of("/x"), None);
}

// ---------------------------------------------------------------------
// Commands
// ---------------------------------------------------------------------

fn listed(path: &str, mtime_ms: u64, size: u64, copied: Option<CopyReply>) -> ListedFile {
    ListedFile { path: s(path), mtime_ms, size, copied }
}

fn captured(end: CaptureEnd) -> CheckpointWorktreeCapture {
    match end {
        CaptureEnd::Done(c) => c,
        CaptureEnd::Failed(e) => panic!("{}", e.reason),
        _ => panic!("nothing is captured"),
    }
}

#[test]
fn a_walk_leaves_out_what_is_not_recorded() {
    let entry = |path: &str, dir: bool, link: bool, ignored: bool| WalkEntry {
        path: s(path),
        is_symlink: link,
        is_dir: dir,
        is_file: !dir,
        ignored,
    };
    let mut walk = WorktreeWalk::start();
    assert_eq!(walk.next_directory().as_deref(), Some(""));
    walk.collect_worktree_file_paths(&vec![
        entry("src", true, false, false),
        entry("target", true, false, false),
        entry("link", false, true, false),
        entry("log", false, false, true),
        entry("a", false, false, false),
    ]);
    assert_eq!(walk.next_directory().as_deref(), Some("src"));
    walk.collect_worktree_file_paths(&vec![entry("src/b", false, false, false)]);
    assert_eq!(walk.next_directory(), None);
    assert_eq!(walk.paths, names(&["a", "src/b"]));
}

#[test]
fn unchanged_files_are_not_kept_again() {
    let mut cache = FingerprintCache::new();
    let ids = names(&["cp"]);
    let list = |reply: Option<CopyReply>| WorktreeListing {
        source: ListingSource::Walk,
        files: vec![listed("a", 5, 6, reply)],
        under_git: vec![],
    };
    match cache.capture_files(&ids, "/w", &None, &list(None)) {
        CaptureEnd::Ask { source, path } => {
            assert_eq!(source, ListingSource::Walk);
            assert_eq!(path, "a");
        }
        _ => panic!("the content is asked for"),
    }
    let c = captured(cache.capture_files(&ids, "/w", &None, &list(Some(CopyReply::Kept(s("id1"))))));
    assert_eq!(c.before_states[0].object_id.as_deref(), Some("id1"));
    let c = captured(cache.capture_files(&ids, "/w", &None, &list(None)));
    assert_eq!(c.before_states[0].object_id.as_deref(), Some("id1"));
    assert_eq!(cache.fingerprint_lookup("/w", "a", 5, 6).as_deref(), Some("id1"));
    assert_eq!(cache.fingerprint_lookup("/w", "a", 5, 7), None);
    // What is remembered later counts.
    cache.fingerprint_store("/w", "a", 9, 9, s("id2"));
    assert_eq!(cache.fingerprint_lookup("/w", "a", 9, 9).as_deref(), Some("id2"));
    assert_eq!(cache.fingerprint_lookup("/w", "a", 5, 6), None);
}

#[test]
fn files_are_captured_by_what_keeping_them_came_to() {
    let mut cache = FingerprintCache::new();
    let list = WorktreeListing {
        source: ListingSource::Walk,
        files: vec![
            listed("kept", 1, 1, Some(CopyReply::Kept(s("k")))),
            listed("big", 1, 1, Some(CopyReply::Skipped)),
            listed("gone", 1, 1, Some(CopyReply::Gone)),
            listed("committed", 7, 8, None),
        ],
        under_git: names(&["committed"]),
    };
    let c = captured(cache.capture_files(&vec![], "/w", &None, &list));
    assert_eq!(c.before_states.len(), 3);
    assert!(c.before_states[1].skipped);
    assert!(c.before_states[2].under_git && c.before_states[2].object_id.is_none());
    let list = WorktreeListing {
        source: ListingSource::Walk,
        files: vec![listed("x", 1, 1, Some(CopyReply::Failed(StorageError::from_reason("disk full"))))],
        under_git: vec![],
    };
    match cache.capture_files(&vec![], "/w", &None, &list) {
        CaptureEnd::Failed(e) => assert_eq!(e.reason, "disk full"),
        _ => panic!("the error is passed on"),
    }
}

fn manifest_of(dir: &str) -> CheckpointManifest {
    CheckpointManifest::create_checkpoint(s(dir), None)
}

fn walked(files: Vec<ListedFile>) -> ListingReply {
    ListingReply::Listed(WorktreeListing { source: ListingSource::Walk, files, under_git: vec![] })
}

#[test]
fn nothing_is_captured_without_a_checkpoint_of_the_directory() {
    let mut cache = FingerprintCache::new();
    let ids = names(&["gone", "other", "here"]);
    let mut facts = CaptureFacts::new(false);
    let none = cache.capture_checkpoint_worktree_before(&vec![], "/w", &facts);
    assert!(matches!(none, CaptureEnd::Nothing));
    let end = cache.capture_checkpoint_worktree_before(&ids, "/w", &facts);
    assert!(matches!(end, CaptureEnd::AskDirectory));
    facts.root = Some(s("/w"));
    facts.walked = walked(vec![]);
    for (id, found) in [("gone", None), ("other", Some(manifest_of("/x"))), ("here", Some(manifest_of("/y")))] {
        match cache.capture_checkpoint_worktree_before(&ids, "/w", &facts) {
            CaptureEnd::AskManifest { checkpoint_id } => assert_eq!(checkpoint_id, id),
            _ => panic!("the manifest is asked for"),
        }
        facts.found.push(found);
    }
    let end = cache.capture_checkpoint_worktree_before(&ids, "/w", &facts);
    assert!(matches!(end, CaptureEnd::Nothing));
    facts.found[2] = Some(manifest_of("/w"));
    let c = captured(cache.capture_checkpoint_worktree_before(&ids, "/w", &facts));
    assert_eq!(c.checkpoint_ids, ids);
    // The manifests behind the first that belongs here are not read.
    facts.found = vec![Some(manifest_of("/w"))];
    assert!(captured(cache.capture_checkpoint_worktree_before(&ids, "/w", &facts)).baseline.is_none());
    // On another machine the addresses count.
    facts.found = vec![None, Some(manifest_of("ssh://a@b/x")), None];
    let end = remote::capture_checkpoint_worktree_before_remote(&mut cache, &ids, "ssh://a@b/w", &facts);
    assert!(matches!(end, CaptureEnd::Nothing));
    facts.found = vec![Some(manifest_of("ssh://a@b/w/"))];
    let end = remote::capture_checkpoint_worktree_before_remote(&mut cache, &ids, " ssh://a@b/w", &facts);
    assert_eq!(captured(end).before_states.len(), 0);
    facts.walked = ListingReply::Unasked;
    let end = remote::capture_checkpoint_worktree_before_remote(&mut cache, &ids, "ssh://a@b/w", &facts);
    assert!(matches!(end, CaptureEnd::AskWalk { tracked_by: None }));
}

#[test]
fn a_capture_goes_by_git_or_else_by_a_walk() {
    let mut cache = FingerprintCache::new();
    let ids = names(&["cp"]);
    let git = |prefix: &str, head: &str| GitBaseline {
        repository_root: s("/r"),
        work_dir_prefix: s(prefix),
        head: s(head),
    };
    let mut facts = CaptureFacts::new(true);
    facts.root = Some(s("/r/w"));
    facts.found = vec![Some(CheckpointManifest::create_checkpoint(s("/r/w"), Some(git("w", "1"))))];
    match cache.capture_checkpoint_worktree_before(&ids, "/r/w", &facts) {
        CaptureEnd::AskGit { baseline } => assert_eq!(baseline.head, "1"),
        _ => panic!("the known baseline is used"),
    }
    // One that no longer holds is looked for anew.
    facts.found = vec![Some(CheckpointManifest::create_checkpoint(s("/r/w"), Some(git("old", "1"))))];
    let end = cache.capture_checkpoint_worktree_before(&ids, "/r/w", &facts);
    assert!(matches!(end, CaptureEnd::AskBaseline));
    facts.detected = Some(None);
    let end = cache.capture_checkpoint_worktree_before(&ids, "/r/w", &facts);
    assert!(matches!(end, CaptureEnd::AskWalk { tracked_by: None }));
    facts.detected = Some(Some(git("w", "2")));
    facts.git_listing = ListingReply::Listed(capture_worktree_before_git(names(&["a"]), &vec![]));
    match cache.capture_checkpoint_worktree_before(&ids, "/r/w", &facts) {
        CaptureEnd::Ask { source, path } => {
            assert_eq!(source, ListingSource::Git);
            assert_eq!(path, "a");
        }
        _ => panic!("the content is asked for"),
    }
    let reply = |copied: CopyReply| {
        let mut list = capture_worktree_before_git(names(&["a"]), &vec![]);
        list.files[0].copied = Some(copied);
        ListingReply::Listed(list)
    };
    facts.git_listing = reply(CopyReply::Kept(s("id")));
    let c = captured(cache.capture_checkpoint_worktree_before(&ids, "/r/w", &facts));
    assert_eq!(c.baseline.unwrap().head, "2");
    assert_eq!(c.source, ListingSource::Git);
    // Where that fails the directory is walked, with the files Git knows.
    for failed in [
        reply(CopyReply::Failed(StorageError::from_reason("no"))),
        ListingReply::Failed(StorageError::from_reason("no git")),
    ] {
        facts.git_listing = failed;
        match cache.capture_checkpoint_worktree_before(&ids, "/r/w", &facts) {
            CaptureEnd::AskWalk { tracked_by } => assert_eq!(tracked_by.unwrap().head, "2"),
            _ => panic!("the directory is walked"),
        }
    }
    facts.walked = walked(vec![]);
    let c = captured(cache.capture_checkpoint_worktree_before(&ids, "/r/w", &facts));
    assert!(c.baseline.is_none() && c.source == ListingSource::Walk);
    facts.walked = ListingReply::Failed(StorageError::from_reason("unreadable"));
    match cache.capture_checkpoint_worktree_before(&ids, "/r/w", &facts) {
        CaptureEnd::Failed(e) => assert_eq!(e.reason, "unreadable"),
        _ => panic!("the error is passed on"),
    }
}

#[test]
fn a_file_that_is_gone_is_not_kept() {
    let failed = || Err(StorageError::from_reason("denied"));
    let kept = copy_reply(Ok(OriginalState::Object { object_id: s("id") }), true);
    assert!(matches!(kept, CopyReply::Kept(id) if id == "id"));
    assert!(matches!(copy_reply(Ok(OriginalState::Missing), true), CopyReply::Gone));
    assert!(matches!(copy_reply(failed(), false), CopyReply::Gone));
    assert!(matches!(copy_reply(failed(), true), CopyReply::Failed(e) if e.reason == "denied"));
}

#[test]
fn checkpoints_that_do_not_belong_are_passed_over() {
    let object = |id: &str| Some(OriginalState::Object { object_id: s(id) });
    assert!(matches!(recording::record_file(None, "/w", "f", object("1"), false), FileStep::Leave));
    let elsewhere = recording::record_file(Some(manifest_of("/x")), "/w", "f", object("1"), false);
    assert!(matches!(elsewhere, FileStep::Leave));
    let asks = recording::record_file(Some(manifest_of("/w")), "/w", "f", None, false);
    assert!(matches!(asks, FileStep::Ask));
    let FileStep::Write(m) = recording::record_file(Some(manifest_of("/w")), "/w", "f", object("1"), false) else {
        panic!("the file is recorded");
    };
    assert_eq!(m.entries.len(), 1);
    assert!(m.entries[0].expected.is_none());
    let FileStep::Write(m) = recording::record_file(Some(m), "/w", "f", object("2"), true) else {
        panic!("what the change left is recorded");
    };
    assert!(m.entries[0].expected.is_some());
    let again = recording::record_file(Some(m), "/w", "f", object("3"), false);
    assert!(matches!(again, FileStep::Leave));
    let unknown = recording::record_file(Some(manifest_of("/w")), "/w", "f", object("1"), true);
    assert!(matches!(unknown, FileStep::Leave));
    let found = || vec![None, Some(manifest_of("/x")), Some(manifest_of("/w"))];
    let ids = names(&["a", "b", "c"]);
    assert_eq!(recording::effective_checkpoints(&ids, &found(), "/w"), names(&["c"]));
    assert!(recording::effective_checkpoints(&ids, &found(), "/v").is_empty());
    assert!(recording::validate_capture_work_dir(Some(manifest_of("/w")), "/w").is_some());
    let there = || Some(manifest_of("ssh://a@b/w"));
    assert!(remote::validate_capture_work_dir_remote(there(), "ssh://a@b/w/").is_some());
    assert!(remote::validate_capture_work_dir_remote(there(), "ssh://a@b/x").is_none());
    let ids_there = remote::effective_checkpoints_remote(&names(&["a", "b"]), &vec![there(), None], "ssh://a@b/w");
    assert_eq!(ids_there, names(&["a"]));
    let step = remote::record_file_remote(there(), "ssh://a@b/w", "f", object("1"), false);
    assert!(matches!(step, FileStep::Write(_)));
    let step = remote::record_file_remote(there(), "ssh://a@b/x", "f", object("1"), false);
    assert!(matches!(step, FileStep::Leave));
}

fn seen(path: &str, stat: Option<(u64, u64)>, state: Option<OriginalState>) -> Observed {
    Observed {
        path: s(path),
        stat: stat.map(|(mtime_ms, size)| NodeStat { mtime_ms, size, is_file: true, is_dir: false }),
        in_diff: false,
        committed: None,
        state: state.map(StateReply::Is),
    }
}

fn capture_of(source: ListingSource, files: Vec<ListedFile>, under_git: &[&str]) -> CheckpointWorktreeCapture {
    let mut cache = FingerprintCache::new();
    let list = WorktreeListing { source, files, under_git: names(under_git) };
    captured(cache.capture_files(&names(&["cp"]), "/w", &None, &list))
}

#[test]
fn only_changed_files_are_recorded() {
    let c = capture_of(
        ListingSource::Walk,
        vec![
            listed("same", 1, 1, Some(CopyReply::Kept(s("s")))),
            listed("touched", 1, 1, Some(CopyReply::Kept(s("t")))),
            listed("changed", 1, 1, Some(CopyReply::Kept(s("c")))),
            listed("gone", 1, 1, Some(CopyReply::Kept(s("g")))),
            listed("big", 1, 1, Some(CopyReply::Skipped)),
        ],
        &[],
    );
    let mut m = manifest();
    let after = vec![
        seen("same", Some((1, 1)), None),
        seen("touched", Some((2, 1)), Some(object("t"))),
        seen("changed", Some((2, 1)), Some(object("c2"))),
        seen("gone", None, Some(OriginalState::Missing)),
        seen("big", None, None),
        seen("new", Some((2, 2)), Some(object("n"))),
        seen("node_modules/x", Some((2, 2)), None),
    ];
    match m.record_checkpoint_worktree_after("/w", &c, &after) {
        RecordEnd::Done { changed } => assert!(changed),
        _ => panic!("all is told"),
    }
    let entries: Vec<(String, String, String)> = m
        .entries
        .iter()
        .map(|e| (e.path.clone(), state_name(&e.original), state_name(e.expected.as_ref().unwrap())))
        .collect();
    assert_eq!(
        entries,
        vec![
            (s("changed"), s("c"), s("c2")),
            (s("gone"), s("g"), s("missing")),
            (s("new"), s("missing"), s("n")),
        ]
    );
    match m.record_checkpoint_worktree_after("/w", &c, &vec![seen("changed", Some((2, 1)), None)]) {
        RecordEnd::AskState { path } => assert_eq!(path, "changed"),
        _ => panic!("the state is asked for"),
    }
}

#[test]
fn every_path_is_looked_at_once() {
    let c = capture_of(
        ListingSource::Walk,
        vec![
            listed("b", 1, 1, Some(CopyReply::Kept(s("b")))),
            listed("gone", 1, 1, Some(CopyReply::Kept(s("g")))),
        ],
        &[],
    );
    assert_eq!(c.candidates(&names(&["new", "b", "new"])), names(&["b", "gone", "new"]));
    assert_eq!(c.candidates(&vec![]), names(&["b", "gone"]));
}

#[test]
fn a_recorded_change_keeps_the_first_original() {
    let c = capture_of(ListingSource::Walk, vec![listed("f", 1, 1, Some(CopyReply::Kept(s("mid"))))], &[]);
    let mut m = manifest();
    m.entries.push(CheckpointEntry { path: s("f"), original: object("first"), expected: Some(object("mid")) });
    let mut other = CheckpointManifest::create_checkpoint(s("/x"), None);
    let elsewhere =
        other.record_checkpoint_worktree_after("/w", &c, &vec![seen("f", Some((2, 1)), Some(object("last")))]);
    assert!(matches!(elsewhere, RecordEnd::Done { changed: false }));
    assert!(other.entries.is_empty());
    let end = m.record_checkpoint_worktree_after("/w", &c, &vec![seen("f", Some((2, 1)), Some(object("last")))]);
    assert!(matches!(end, RecordEnd::Done { changed: true }));
    assert_eq!(m.entries.len(), 1);
    assert_eq!(state_name(&m.entries[0].original), "first");
    assert_eq!(state_name(m.entries[0].expected.as_ref().unwrap()), "last");
}

#[test]
fn git_lists_the_files_to_keep() {
    let list = capture_worktree_before_git(names(&["edited"]), &names(&["new"]));
    assert!(list.source == ListingSource::Git);
    assert_eq!(list.files.iter().map(|f| f.path.as_str()).collect::<Vec<_>>(), vec!["edited", "new"]);
    assert!(list.files.iter().all(|f| f.mtime_ms == 0 && f.size == 0 && f.copied.is_none()));
    assert_eq!(list.under_git, names(&["edited"]));
}

#[test]
fn ignored_files_of_another_machine_are_left_out() {
    let directory = RemoteTreeEntry { path: s("d"), is_directory: true, size: 0, mtime_ms: 0 };
    let file = RemoteTreeEntry { path: s("d/f"), is_directory: false, size: 0, mtime_ms: 0 };
    assert_eq!(remote::files_of_tree(&vec![directory, file]), names(&["d/f"]));
    let entry = |path: &str| RemoteTreeEntry { path: s(path), is_directory: false, size: 1, mtime_ms: 2 };
    let entries = vec![entry("kept"), entry("logs/x"), entry("a.tmp")];
    let answers = vec![
        IgnoreAnswers { as_directories: vec![], as_file: false },
        IgnoreAnswers { as_directories: vec![true], as_file: false },
        IgnoreAnswers { as_directories: vec![], as_file: true },
    ];
    let out = remote::filter_remote_tree(&entries, &answers);
    assert_eq!(out.len(), 1);
    assert_eq!((out[0].path.as_str(), out[0].size, out[0].mtime_ms), ("kept", 1, 2));
}

#[test]
fn committed_files_are_held_against_the_baseline() {
    let c = capture_of(ListingSource::Walk, vec![listed("f", 1, 1, None)], &["f"]);
    let same = content::object_id(b"x");
    let mut o = seen("f", Some((2, 1)), None);
    assert!(matches!(c.judge(true, &o), Verdict::AskCommitted));
    assert!(matches!(c.judge(false, &o), Verdict::Same));
    o.committed = Some(Stored::Content(b"x".to_vec()));
    assert!(matches!(c.judge(true, &o), Verdict::AskState));
    o.state = Some(StateReply::Is(object(&same)));
    assert!(matches!(c.judge(true, &o), Verdict::Same));
    o.state = Some(StateReply::Is(object("other")));
    assert!(matches!(c.judge(true, &o), Verdict::Changed { original: OriginalState::Git, .. }));
    o.committed = Some(Stored::Absent);
    assert!(matches!(c.judge(true, &o), Verdict::Changed { original: OriginalState::Missing, .. }));
    o.committed = Some(Stored::Failed(StorageError::from_reason("git broke")));
    assert!(matches!(c.judge(true, &o), Verdict::Failed(_)));
    let gone = seen("f", None, Some(OriginalState::Missing));
    assert!(matches!(c.judge(true, &gone), Verdict::Changed { original: OriginalState::Git, .. }));
}

#[test]
fn git_lists_decide_for_files_without_a_copy() {
    let c = capture_of(ListingSource::Git, vec![], &[]);
    let mut deleted = seen("clean", None, Some(OriginalState::Missing));
    deleted.in_diff = true;
    assert!(matches!(c.judge(true, &deleted), Verdict::Changed { original: OriginalState::Git, .. }));
    let mut edited = seen("clean", Some((9, 9)), None);
    edited.in_diff = true;
    assert!(matches!(c.judge(true, &edited), Verdict::Same));
    let made = seen("new", Some((9, 9)), Some(object("n")));
    assert!(matches!(c.judge(true, &made), Verdict::Changed { original: OriginalState::Missing, .. }));
}

#[test]
fn a_skipped_file_cannot_be_given_back() {
    let mut c = capture_of(ListingSource::Walk, vec![listed("a", 1, 1, Some(CopyReply::Skipped))], &[]);
    c.before_states[0].skipped = false;
    match c.judge(false, &seen("a", Some((2, 2)), None)) {
        Verdict::Failed(e) => {
            assert_eq!(e.reason, "Cannot materialize an original from a skipped pending state")
        }
        _ => panic!("there is no content"),
    }
}

// ---------------------------------------------------------------------
// Git baselines
// ---------------------------------------------------------------------

fn run(success: bool, stdout: &[u8], stderr: &[u8]) -> GitRun {
    GitRun { success, stdout: stdout.to_vec(), stderr: stderr.to_vec() }
}

fn base(prefix: &str) -> GitBaseline {
    GitBaseline { repository_root: s("/r"), work_dir_prefix: s(prefix), head: s("abc") }
}

#[test]
fn names_of_the_repository_become_paths() {
    assert_eq!(baseline::repo_paths_to_work_relative(b"a\0./b\\c\0\0", ""), names(&["a", "b/c"]));
    assert_eq!(
        baseline::repo_paths_to_work_relative(b"web/x\0webx\0other/web/y\0web/z/1", "web"),
        names(&["x", "z/1"])
    );
    assert!(baseline::repo_paths_to_work_relative(b"", "").is_empty());
}

#[test]
fn git_runs_are_read() {
    let b = base("web");
    assert_eq!(baseline::git_diff_name_only(&run(true, b"web/x\0", b""), &b).unwrap(), names(&["x"]));
    let e = baseline::git_diff_name_only(&run(false, b"", b" bad\n"), &b).unwrap_err();
    assert_eq!(e.reason, "Failed to list git diff for checkpoint baseline: bad");
    let e = baseline::git_untracked_paths(&run(false, b"", b"no"), &b).unwrap_err();
    assert_eq!(e.reason, "Failed to list untracked files for checkpoint baseline: no");
    assert!(baseline::tracked_file_set(&run(false, b"web/x\0", b""), &b).is_empty());
    let e = baseline::read_ref_update(&run(false, b"", b"locked")).unwrap_err();
    assert_eq!(e.reason, "Failed to update checkpoint Git reference: locked");
    assert_eq!(baseline::git_text(&run(true, b" head \n", b"")).as_deref(), Some("head"));
    assert_eq!(baseline::git_text(&run(false, b"head", b"")), None);
    assert_eq!(baseline::read_git_object(run(true, b"x", b"")), Some(b"x".to_vec()));
    assert_eq!(baseline::read_git_object(run(false, b"x", b"")), None);
}

#[test]
fn baselines_name_objects_and_references() {
    assert_eq!(baseline::git_object_spec(&base(""), "a"), "abc:a");
    assert_eq!(baseline::git_object_spec(&base("web//"), "a"), "abc:web/a");
    assert_eq!(baseline::checkpoint_git_ref("cp-1"), "refs/snow/checkpoints/cp-1");
    assert_eq!(
        baseline::update_checkpoint_git_ref("cp-1", &base(""), true),
        names(&["update-ref", "-d", "refs/snow/checkpoints/cp-1"])
    );
    assert_eq!(
        baseline::update_checkpoint_git_ref("cp-1", &base(""), false),
        names(&["update-ref", "refs/snow/checkpoints/cp-1", "abc"])
    );
    assert_eq!(
        baseline::diff_arguments(&base("")),
        names(&["diff", "--name-only", "-z", "--no-renames", "abc"])
    );
    let b = baseline::detect_git_baseline("/r", "abc", "/r/web/app").unwrap();
    assert_eq!(b.work_dir_prefix, "web/app");
    assert!(baseline::reuse_manifest_git_baseline(&b, "/r/web/app"));
    assert!(!baseline::reuse_manifest_git_baseline(&b, "/r/web"));
    assert!(baseline::detect_git_baseline("/r", "abc", "/other").is_none());
    assert_eq!(baseline::run_git().len(), 4);
    assert_eq!(baseline::untracked_arguments()[1], "-o");
}

#[test]
fn the_first_matching_baseline_is_reused() {
    let with = |dir: &str, head: Option<&str>| {
        CheckpointManifest::create_checkpoint(
            s(dir),
            head.map(|h| GitBaseline { repository_root: s("/r"), work_dir_prefix: s(""), head: s(h) }),
        )
    };
    let all = vec![
        Some(with("/x", Some("1"))),
        None,
        Some(with("/w", None)),
        Some(with("/w", Some("2"))),
        Some(with("/w", Some("3"))),
    ];
    let (matched, b) = baseline::match_checkpoints(&all, "/w");
    assert!(matched);
    assert_eq!(b.unwrap().head, "2");
    let (matched, b) = baseline::match_checkpoints(&all, "/none");
    assert!(!matched && b.is_none());
}

// ---------------------------------------------------------------------
// Other machines
// ---------------------------------------------------------------------

fn reply(fields: Vec<(&str, Json)>) -> Json {
    let mut out: Vec<(String, Json)> = vec![];
    for (k, v) in fields {
        json::set(&mut out, s(k), v);
    }
    Json::Object(out)
}

#[test]
fn addresses_are_taken_apart() {
    assert_eq!(
        remote::split_ssh_uri("ssh://me@host:22/home/me"),
        Some((s("me@host:22"), s("/home/me")))
    );
    assert_eq!(remote::split_ssh_uri("ssh://host/home"), None);
    assert_eq!(remote::split_ssh_uri("ssh://me@host"), None);
    assert_eq!(remote::split_ssh_uri("/home"), None);
    assert_eq!(remote::normalize_ssh_uri(" ssh://me@h/a// "), "ssh://me@h/a");
    assert_eq!(remote::normalize_ssh_uri("///"), "/");
}

#[test]
fn remote_files_are_named_from_the_root() {
    let root = "ssh://me@h:22/w/";
    assert_eq!(
        remote::resolve_remote_checkpoint_path(root, "ssh://me@h:22/w/src/a"),
        (s("ssh://me@h:22/w/src/a"), s("src/a"))
    );
    assert_eq!(remote::resolve_remote_checkpoint_path(root, "ssh://me@h:22/w").1, "");
    assert_eq!(
        remote::resolve_remote_checkpoint_path(root, "src/a"),
        (s("ssh://me@h:22/w/src/a"), s("src/a"))
    );
    assert_eq!(
        remote::resolve_remote_checkpoint_path(root, "ssh://me@other:22/w/a").1,
        "\0abs:ssh://me@other:22/w/a"
    );
    assert_eq!(
        remote::resolve_remote_checkpoint_path(root, "ssh://me@h:22/wide/a").1,
        "\0abs:ssh://me@h:22/wide/a"
    );
    assert_eq!(remote::resolve_remote_checkpoint_path("/local", "a"), (s("/local/a"), s("a")));
    assert_eq!(remote::resolve_remote_manifest_path(root, "src/a"), "ssh://me@h:22/w/src/a");
    assert_eq!(remote::resolve_remote_manifest_path(root, "\0abs:ssh://x@y/z"), "ssh://x@y/z");
}

#[test]
fn replies_of_the_other_machine_are_read() {
    let there = reply(vec![
        ("exists", Json::Bool(true)),
        ("isDirectory", Json::Bool(true)),
        ("size", Json::UInt(7)),
        ("mtimeMs", Json::Int(-1)),
    ]);
    assert_eq!(
        remote::stat(&there),
        Some(RemoteFileStat { is_directory: true, size: 7, mtime_ms: 0 })
    );
    assert_eq!(remote::stat(&reply(vec![("size", Json::UInt(7))])), None);
    assert_eq!(remote::stat(&Json::Null), None);
    let tree = reply(vec![
        (
            "entries",
            Json::Array(vec![
                reply(vec![("path", Json::Str(s("a"))), ("size", Json::UInt(1))]),
                reply(vec![("size", Json::UInt(2))]),
                reply(vec![("path", Json::Str(s("d"))), ("isDirectory", Json::Bool(true))]),
            ]),
        ),
        (
            "gitignores",
            Json::Array(vec![
                reply(vec![("dir", Json::Str(s("x/y"))), ("content", Json::Str(s("low")))]),
                reply(vec![("dir", Json::Str(s(""))), ("content", Json::Str(s("top")))]),
                reply(vec![("dir", Json::Str(s("x"))), ("content", Json::Str(s("mid")))]),
                reply(vec![("dir", Json::Str(s("bad")))]),
            ]),
        ),
    ]);
    let listing = remote::list_tree(&tree);
    assert_eq!(listing.entries.len(), 2);
    assert_eq!(remote::remote_stat_map(&listing.entries, "a").unwrap().size, 1);
    assert_eq!(remote::remote_stat_map(&listing.entries, "d"), None);
    let files = remote::files_to_capture(&listing.entries);
    assert_eq!(files.files.len(), 1);
    let rules = remote::build_remote_matcher(listing.gitignores);
    assert_eq!(rules.root.as_deref(), Some("top"));
    let order: Vec<String> = rules.directories.into_iter().map(|r| r.dir).collect();
    assert_eq!(order, names(&["x", "x/y"]));
    assert!(remote::list_tree(&Json::Null).entries.is_empty());
}

#[test]
fn remote_content_is_encoded() {
    let encoded = remote::write_bytes(&vec![0, 255, 16]);
    assert_eq!(encoded, "AP8Q");
    let read = remote::read_bytes(&reply(vec![("content", Json::Str(encoded))])).unwrap();
    assert_eq!(read, Some(vec![0, 255, 16]));
    assert_eq!(remote::read_bytes(&reply(vec![])).unwrap(), None);
    let e = remote::read_bytes(&reply(vec![("content", Json::Str(s("?")))])).unwrap_err();
    assert!(e.reason.starts_with("Failed to decode remote checkpoint file content: "));
    assert!(remote::delete_file("p", &reply(vec![("deleted", Json::Bool(true))])).is_ok());
    let e = remote::delete_file("p", &reply(vec![])).unwrap_err();
    assert_eq!(e.reason, "Failed to delete remote file 'p'");
    assert!(!remote::remove_dir(&reply(vec![("removed", Json::Int(1))])));
    assert!(remote::remove_dir(&reply(vec![("removed", Json::Bool(true))])));
}

#[test]
fn a_remote_root_must_be_a_directory() {
    let dir = Some(RemoteFileStat { is_directory: true, size: 0, mtime_ms: 0 });
    let file = Some(RemoteFileStat { is_directory: false, size: 0, mtime_ms: 0 });
    assert_eq!(remote::canonical_work_dir_remote(" ssh://a@b/c/ ", true, dir).unwrap(), "ssh://a@b/c");
    let e = remote::canonical_work_dir_remote("/c", false, dir).unwrap_err();
    assert_eq!(e.reason, "Working directory is not an SSH path: /c");
    let e = remote::canonical_work_dir_remote("ssh://a@b/c", true, None).unwrap_err();
    assert_eq!(e.reason, "Remote working directory does not exist: ssh://a@b/c");
    let e = remote::canonical_work_dir_remote("ssh://a@b/c", true, file).unwrap_err();
    assert_eq!(e.reason, "Path is not a directory: ssh://a@b/c");
}

#[test]
fn ancestors_decide_about_ignored_files() {
    assert_eq!(remote::ancestors_of("a/b/c"), names(&["a", "a/b"]));
    assert!(remote::ancestors_of("cache").is_empty());
    assert!(remote::is_ignored_with_ancestors(&vec![false, true, false], false));
    assert!(remote::is_ignored_with_ancestors(&vec![false], true));
    assert!(!remote::is_ignored_with_ancestors(&vec![false, false], false));
}

#[test]
fn remote_paths_lead_back() {
    let root = "ssh://me@host:22/w/";
    let back = |file: &str| {
        let (address, path) = remote::resolve_remote_checkpoint_path(root, file);
        (path.clone(), address, remote::resolve_remote_manifest_path(root, &path))
    };
    let (path, address, place) = back("ssh://me@host:22/w/a/b");
    assert_eq!((path.as_str(), &address), ("a/b", &place));
    let (path, address, place) = back("src/x");
    assert_eq!((path.as_str(), &address), ("src/x", &place));
    assert_eq!(place, "ssh://me@host:22/w/src/x");
    let (path, address, place) = back("ssh://me@host:22/home/y");
    assert_eq!((path.as_str(), &address), ("\0abs:ssh://me@host:22/home/y", &place));
}

fn remote_sight(size: Option<u64>, read: RemoteRead) -> RemoteSight {
    RemoteSight {
        stat: size.map(|size| RemoteFileStat { is_directory: false, size, mtime_ms: 3 }),
        read,
    }
}

#[test]
fn remote_files_are_compared_by_size_first() {
    let kept = Stored::Content(b"abc".to_vec());
    let state = object("id");
    let change = |sight: &RemoteSight| sight.classify_change("p", &state, false, &kept);
    assert_eq!(change(&remote_sight(Some(2), RemoteRead::Unread)).unwrap(), Some(ChangeType::Modified));
    assert_eq!(change(&remote_sight(None, RemoteRead::Unread)).unwrap(), Some(ChangeType::Deleted));
    assert_eq!(change(&remote_sight(Some(3), RemoteRead::Gone)).unwrap(), Some(ChangeType::Deleted));
    assert_eq!(change(&remote_sight(Some(3), RemoteRead::Content(b"abc".to_vec()))).unwrap(), None);
    assert_eq!(
        change(&remote_sight(Some(3), RemoteRead::Content(b"abd".to_vec()))).unwrap(),
        Some(ChangeType::Modified)
    );
    assert!(change(&remote_sight(Some(3), RemoteRead::Unread)).is_err());
    assert!(remote::needs_content(remote_sight(Some(3), RemoteRead::Unread).stat, &state, &kept));
    assert!(!remote::needs_content(remote_sight(Some(4), RemoteRead::Unread).stat, &state, &kept));
    let e = remote_sight(None, RemoteRead::Unread)
        .classify_change("p", &OriginalState::Git, true, &Stored::Absent)
        .err()
        .unwrap();
    assert_eq!(e.reason, "Checkpoint Git baseline is missing for 'p'");
}

#[test]
fn remote_operations_check_the_directory() {
    let mut m = CheckpointManifest::create_checkpoint(s("ssh://a@b/w"), None);
    m.entries.push(CheckpointEntry { path: s("f"), original: OriginalState::Missing, expected: Some(object("id")) });
    let facts = || {
        vec![EntryFacts {
            sight: remote_sight(Some(3), RemoteRead::Content(b"abc".to_vec())),
            expected: Stored::Content(b"abc".to_vec()),
            original: Stored::Absent,
        }]
    };
    let changes = remote::list_checkpoint_changes_remote(Some(&m), " ssh://a@b/w/ ", &facts()).unwrap();
    assert_eq!(changes[0].change_type, "added");
    let e = remote::list_checkpoint_changes_remote(Some(&m), "ssh://a@b/x", &facts()).err().unwrap();
    assert_eq!(e.reason, "Checkpoint belongs to 'ssh://a@b/w', not 'ssh://a@b/x'");
    let mut cache = DiffCache::new();
    let diffs =
        remote::list_checkpoint_diffs_remote(&mut cache, "cp", Some(&m), "ssh://a@b/w", &facts(), false).unwrap();
    assert_eq!(diffs[0].change_type, "added");
    assert!(diffs[0].content.contains("+abc"));
    assert!(remote::list_checkpoint_diffs_remote(&mut cache, "cp", None, "x", &vec![], false).unwrap().is_empty());
    let plan = remote::restore_checkpoint_remote(Some(&m), "ssh://a@b/w", &facts());
    assert!(plan.failed.is_none());
    assert!(matches!(plan.steps[0].action, RestoreAction::Remove));
    let plan = remote::restore_checkpoint_remote(Some(&m), "ssh://a@b/x", &facts());
    assert!(plan.failed.is_some() && plan.steps.is_empty());
    let mut cache = FingerprintCache::new();
    let list = WorktreeListing { source: ListingSource::Remote, files: vec![], under_git: vec![] };
    let c = captured(cache.capture_files(&names(&["cp"]), "ssh://a@b/x", &None, &list));
    match remote::record_checkpoint_worktree_after_remote(&mut m, &c, &vec![seen("n", Some((1, 1)), Some(object("n")))]) {
        RecordEnd::Done { changed } => assert!(!changed),
        _ => panic!("another directory changes nothing"),
    }
    assert_eq!(m.entries.len(), 1);
}

#[test]
fn a_remote_file_of_another_size_has_changed() {
    let c = capture_of(ListingSource::Remote, vec![listed("f", 1, 4, Some(CopyReply::Kept(s("id"))))], &[]);
    let grown = seen("f", Some((2, 5)), Some(object("id")));
    assert!(matches!(c.judge(false, &grown), Verdict::Changed { .. }));
    let touched = seen("f", Some((2, 4)), Some(object("id")));
    assert!(matches!(c.judge(false, &touched), Verdict::Same));
    assert!(matches!(remote::remote_file(None, None), FileRead::Missing));
    let dir = Some(RemoteFileStat { is_directory: true, size: 0, mtime_ms: 0 });
    assert!(matches!(remote::remote_file(dir, None), FileRead::NotRegular));
}

#[test]
fn all_changes_are_shown_again_and_again() {
    let mut disk = Disk::default();
    let mut m = manifest();
    for path in ["a", "b"] {
        disk.write(path, "old\n");
        let state = disk.keep(path);
        m.record_checkpoint_file(path, state);
        disk.write(path, "new\n");
        let state = disk.keep(path);
        m.record_checkpoint_file_after(path, state);
    }
    disk.write("b", "newer\n");
    let mut cache = DiffCache::new();
    let shown = |cache: &mut DiffCache, all: bool| -> Vec<(String, String)> {
        let diffs = cache.list_checkpoint_diffs("cp", &m, &disk.facts(&m), all).unwrap();
        diffs.into_iter().map(|d| (d.path, d.content)).collect()
    };
    let preview = shown(&mut cache, false);
    assert_eq!(preview.len(), 1);
    assert_eq!(preview[0].0, "a");
    let all = shown(&mut cache, true);
    assert_eq!(all.len(), 2);
    assert_eq!(all[0], preview[0]);
    assert!(all[1].1.contains("+newer"));
    assert_eq!(shown(&mut cache, true), all);
}

#[test]
fn a_change_on_another_machine_is_taken_back() {
    let mut m = CheckpointManifest::create_checkpoint(s("ssh://a@b/w"), None);
    m.capture_entry("f", object("old"), object("new"));
    let plan = remote::restore_checkpoint_remote(
        Some(&m),
        "ssh://a@b/w",
        &vec![EntryFacts {
            sight: remote_sight(Some(3), RemoteRead::Content(b"new".to_vec())),
            expected: Stored::Content(b"new".to_vec()),
            original: Stored::Content(b"old".to_vec()),
        }],
    );
    assert!(plan.failed.is_none());
    match &plan.steps[0].action {
        RestoreAction::CopyObject { object_id } => assert_eq!(object_id, "old"),
        _ => panic!("the first content"),
    }
}
