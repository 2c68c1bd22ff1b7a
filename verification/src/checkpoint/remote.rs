//! Checkpoints of a working directory on another machine.

use vstd::prelude::*;
use vstd::slice::slice_subrange;
use crate::checkpoint::after;
use crate::checkpoint::after::{Observed, RecordEnd};
use crate::checkpoint::before;
use crate::checkpoint::before::{
    CaptureEnd, CaptureFacts, CaptureFactsModel, CheckpointWorktreeCapture, EndModel,
    FingerprintCache, FingerprintModel, ListedFile, ListedModel, ListingSource, TurnModel,
    WorktreeListing, WorktreeModel,
};
use crate::checkpoint::content;
use crate::checkpoint::content::{same_content, FileRead};
use crate::checkpoint::listing;
use crate::checkpoint::listing::{
    list_checkpoint_changes, CheckpointFileChange, CheckpointFileDiff, DiffCache,
};
use crate::checkpoint::manifest;
use crate::checkpoint::manifest::{
    belongs_elsewhere, CheckpointManifest, ManifestModel, OriginalState, StateModel,
};
use crate::checkpoint::paths;
use crate::checkpoint::paths::{should_skip_relative, strip_prefix, ABSOLUTE_PATH_MARKER};
use crate::checkpoint::recording;
use crate::checkpoint::recording::FileStep;
use crate::checkpoint::restore;
use crate::checkpoint::restore::{
    count_slashes, restore_checkpoint, PlannedRestore, RestorePlan,
};
use crate::checkpoint::sight;
use crate::checkpoint::sight::{
    ChangeType, EntryFacts, FileStat, Sight, Stored, StoredModel,
};
use crate::config::json;
use crate::config::json::{Json, JsonModel};
use crate::config::sql;
use crate::config::sql::{decode_base64, encode_base64};
use crate::error;
use crate::error::{ErrorModel, StorageError};
use crate::order;
use crate::order::Ranking;
use crate::rows;
use crate::rows::{find_row, keep_rows, select_rows, Copied};
use crate::text;

verus! {

// ---------------------------------------------------------------------
// Addresses
// ---------------------------------------------------------------------

/// The user, machine and port of an address, and the path on that machine.
pub open spec fn uri_parts(uri: Seq<char>) -> Option<(Seq<char>, Seq<char>)> {
    match paths::after_prefix(uri, "ssh://"@) {
        None => None,
        Some(rest) => match text::find_char(rest, '@') {
            None => None,
            Some(at) => match text::find_char(rest.skip(at + 1), '/') {
                None => None,
                Some(slash) => Some(
                    (
                        rest.take(at + 1) + rest.skip(at + 1).take(slash),
                        rest.skip(at + 1).skip(slash),
                    ),
                ),
            },
        },
    }
}

/// The user, machine and port of an address, and the path on that machine.
pub fn split_ssh_uri(uri: &str) -> (r: Option<(String, String)>)
    ensures
        match r {
            Some((authority, path)) => uri_parts(uri@) == Some((authority@, path@)),
            None => uri_parts(uri@) is None,
        },
{
    let chars = text::chars_of(uri);
    let rest = match strip_prefix(chars.as_slice(), "ssh://") {
        Some(rest) => rest,
        None => {
            return None;
        },
    };
    let total: usize = rest.len();
    let at = match text::position_char(rest, '@') {
        Some(at) => at,
        None => {
            return None;
        },
    };
    let host = slice_subrange(rest, at + 1, total);
    let host_len: usize = host.len();
    proof {
        assert(host@ =~= rest@.skip(at + 1));
    }
    match text::position_char(host, '/') {
        Some(slash) => {
            let user = slice_subrange(rest, 0, at + 1);
            let machine = slice_subrange(host, 0, slash);
            let path = slice_subrange(host, slash, host_len);
            proof {
                assert(user@ =~= rest@.take(at + 1));
                assert(machine@ =~= host@.take(slash as int));
                assert(path@ =~= host@.skip(slash as int));
            }
            let mut authority = text::string_of(user);
            let port = text::string_of(machine);
            authority.append(port.as_str());
            Some((authority, text::string_of(path)))
        },
        None => None,
    }
}

/// An address without white space around it and slashes at its end.
pub open spec fn normal_uri(uri: Seq<char>) -> Seq<char> {
    let plain = text::without_trailing(text::trimmed(uri), '/');
    if plain.len() == 0 {
        "/"@
    } else {
        plain
    }
}

/// An address without white space around it and slashes at its end.
pub fn normalize_ssh_uri(uri: &str) -> (out: String)
    ensures
        out@ == normal_uri(uri@),
{
    let chars = text::chars_of(uri);
    let plain = text::trim_end_char(text::trim(chars.as_slice()), '/');
    if plain.len() == 0 {
        "/".to_string()
    } else {
        text::string_of(plain)
    }
}

/// The address of a path below a working directory.
pub open spec fn below_root(root: Seq<char>, path: Seq<char>) -> Seq<char> {
    text::without_trailing(root, '/') + "/"@ + path
}

/// The address of a path below a working directory.
fn address_below(root: &str, path: &str) -> (out: String)
    ensures
        out@ == below_root(root@, path@),
{
    let chars = text::chars_of(root);
    let mut out = text::string_of(text::trim_end_char(chars.as_slice(), '/'));
    out.append("/");
    out.append(path);
    out
}

/// The address and the manifest path of a file. Where the root is no
/// address, or the file is given by a relative path, the path is taken as
/// it is; a file elsewhere is marked with its address.
pub open spec fn remote_entry(root: Seq<char>, file: Seq<char>) -> (Seq<char>, Seq<char>) {
    match (uri_parts(root), uri_parts(file)) {
        (Some((root_authority, root_full)), Some((authority, full))) => {
            let base = text::without_trailing(root_full, '/');
            let path = text::without_trailing(full, '/');
            if authority == root_authority && (path == base || path.len() == 0) {
                (file, Seq::empty())
            } else if authority == root_authority && text::begins(path, base + "/"@) {
                (file, path.skip(base.len() as int + 1))
            } else {
                (file, ABSOLUTE_PATH_MARKER@ + file)
            }
        },
        _ => (below_root(root, file), file),
    }
}

/// The address and the manifest path of a file.
pub fn resolve_remote_checkpoint_path(root: &str, file_path: &str) -> (r: (String, String))
    ensures
        (r.0@, r.1@) == remote_entry(root@, file_path@),
{
    let (root_authority, root_path) = match split_ssh_uri(root) {
        Some(parts) => parts,
        None => {
            return (address_below(root, file_path), file_path.to_string());
        },
    };
    let (authority, path) = match split_ssh_uri(file_path) {
        Some(parts) => parts,
        None => {
            return (address_below(root, file_path), file_path.to_string());
        },
    };
    let root_chars = text::chars_of(root_path.as_str());
    let path_chars = text::chars_of(path.as_str());
    let base = text::trim_end_char(root_chars.as_slice(), '/');
    let inner = text::trim_end_char(path_chars.as_slice(), '/');
    let user = text::chars_of(authority.as_str());
    if text::equals(user.as_slice(), root_authority.as_str()) {
        if inner.len() == 0 || text::same(inner, base) {
            proof {
                if inner@.len() == 0 {
                    assert(inner@ =~= Seq::empty());
                }
            }
            return (file_path.to_string(), text::string_of(&[]));
        }
        let mut prefix = text::string_of(base);
        prefix.append("/");
        proof {
            reveal_strlit("/");
        }
        match strip_prefix(inner, prefix.as_str()) {
            Some(relative) => {
                return (file_path.to_string(), text::string_of(relative));
            },
            None => {},
        }
    }
    let mut marked = ABSOLUTE_PATH_MARKER.to_string();
    marked.append(file_path);
    (file_path.to_string(), marked)
}

/// The address of the file of a manifest entry.
pub open spec fn remote_place(root: Seq<char>, manifest_path: Seq<char>) -> Seq<char> {
    match paths::after_prefix(manifest_path, ABSOLUTE_PATH_MARKER@) {
        Some(address) => address,
        None => below_root(root, manifest_path),
    }
}

/// The address of the file of a manifest entry.
pub fn resolve_remote_manifest_path(root: &str, manifest_path: &str) -> (out: String)
    ensures
        out@ == remote_place(root@, manifest_path@),
{
    let chars = text::chars_of(manifest_path);
    match strip_prefix(chars.as_slice(), ABSOLUTE_PATH_MARKER) {
        Some(address) => text::string_of(address),
        None => address_below(root, manifest_path),
    }
}

/// A file outside the working directory is found again at its own address.
pub proof fn law_marked_address_resolves(root: Seq<char>, file: Seq<char>)
    ensures
        remote_place(root, ABSOLUTE_PATH_MARKER@ + file) == file,
{
    let marker = ABSOLUTE_PATH_MARKER@;
    let marked = marker + file;
    assert(marked.subrange(0, marker.len() as int) =~= marker);
    assert(marked.take(marker.len() as int) =~= marker);
    assert(marked.skip(marker.len() as int) =~= file);
}

proof fn lemma_find_char(s: Seq<char>, c: char)
    ensures
        match text::find_char(s, c) {
            Some(i) => 0 <= i < s.len() && s[i] == c && forall|j: int|
                0 <= j < i ==> #[trigger] s[j] != c,
            None => true,
        },
{
    text::lemma_find_from(s, seq![c], 0);
    match text::find_char(s, c) {
        Some(i) => {
            assert(s.subrange(i, i + 1)[0] == seq![c][0]);
            assert forall|j: int| 0 <= j < i implies #[trigger] s[j] != c by {
                if s[j] == c {
                    assert(s.subrange(j, j + 1) =~= seq![c]);
                    assert(text::stands_at(s, seq![c], j));
                }
            }
        },
        None => {},
    }
}

/// An address is made of its parts.
#[verifier::spinoff_prover]
proof fn lemma_uri_parts(uri: Seq<char>)
    ensures
        uri_parts(uri) matches Some((authority, path)) ==> uri == "ssh://"@ + authority + path
            && authority.len() > 0 && authority.last() != '/' && path.len() > 0,
{
    reveal_strlit("ssh://");
    if let Some((authority, path)) = uri_parts(uri) {
        let scheme = "ssh://"@;
        let rest = uri.skip(scheme.len() as int);
        lemma_find_char(rest, '@');
        let at = text::find_char(rest, '@')->0;
        let host = rest.skip(at + 1);
        lemma_find_char(host, '/');
        let slash = text::find_char(host, '/')->0;
        assert(authority == rest.take(at + 1) + host.take(slash));
        assert(path == host.skip(slash));
        assert(uri == scheme + authority + path) by {
            assert(uri.take(scheme.len() as int) == scheme);
            assert(uri =~= uri.take(scheme.len() as int) + rest);
            assert(host =~= host.take(slash) + host.skip(slash));
            assert(rest =~= rest.take(at + 1) + host);
            assert(authority + path =~= rest);
            assert(scheme + authority + path =~= scheme + rest);
        }
        if slash == 0 {
            assert(authority.last() == rest[at]);
        } else {
            assert(authority.last() == host[slash - 1]);
        }
    }
}

proof fn lemma_trailing(head: Seq<char>, tail: Seq<char>, c: char)
    requires
        head.len() > 0,
        head.last() != c,
    ensures
        text::without_trailing(head + tail, c) == head + text::without_trailing(tail, c),
    decreases tail.len(),
{
    if tail.len() == 0 {
        assert(head + tail =~= head);
        assert(text::without_trailing(tail, c) =~= tail);
    } else {
        assert((head + tail).last() == tail.last());
        assert((head + tail).drop_last() =~= head + tail.drop_last());
        lemma_trailing(head, tail.drop_last(), c);
    }
}

proof fn lemma_trailing_twice(s: Seq<char>, c: char)
    ensures
        text::without_trailing(text::without_trailing(s, c), c) == text::without_trailing(s, c),
    decreases s.len(),
{
    if s.len() > 0 && s.last() == c {
        lemma_trailing_twice(s.drop_last(), c);
    }
}

/// The manifest path of a file leads back to its address, slashes at the
/// end aside: for files in the working directory, for relative paths and
/// for files elsewhere. Only paths that are marked may begin with the
/// marker.
pub proof fn law_remote_path_leads_back(root: Seq<char>, file: Seq<char>)
    requires
        remote_entry(root, file).1.len() > 0,
        text::begins(remote_entry(root, file).1, ABSOLUTE_PATH_MARKER@) ==> remote_entry(
            root,
            file,
        ).1 == ABSOLUTE_PATH_MARKER@ + remote_entry(root, file).0,
    ensures
        text::without_trailing(remote_place(root, remote_entry(root, file).1), '/')
            == text::without_trailing(remote_entry(root, file).0, '/'),
{
    let (address, entry) = remote_entry(root, file);
    law_marked_address_resolves(root, address);
    if !text::begins(entry, ABSOLUTE_PATH_MARKER@) {
        match (uri_parts(root), uri_parts(file)) {
            (Some((root_authority, root_full)), Some((authority, full))) => {
                let base = text::without_trailing(root_full, '/');
                let path = text::without_trailing(full, '/');
                if authority == root_authority && text::begins(path, base + "/"@) {
                    lemma_uri_parts(root);
                    lemma_uri_parts(file);
                    reveal_strlit("/");
                    let head = "ssh://"@ + authority;
                    assert(head.last() == authority.last());
                    lemma_trailing(head, root_full, '/');
                    lemma_trailing(head, full, '/');
                    assert(path =~= path.take(base.len() as int + 1) + entry);
                    assert(below_root(root, entry) =~= head + path);
                    lemma_trailing_twice(file, '/');
                } else {
                    let marked = ABSOLUTE_PATH_MARKER@ + file;
                    assert(marked.take(ABSOLUTE_PATH_MARKER@.len() as int)
                        =~= ABSOLUTE_PATH_MARKER@);
                }
            },
            _ => {},
        }
    }
}

impl CheckpointManifest {
    /// Refuses a manifest that belongs to another directory; gives the
    /// address of the directory in its normal form.
    pub fn validate_manifest_work_dir_remote(&self, work_dir: &str) -> (r: Result<
        String,
        StorageError,
    >)
        ensures
            error::result_view(r) == (if normal_uri(work_dir@) == normal_uri(self.work_dir@) {
                Ok(normal_uri(work_dir@))
            } else {
                Err(
                    error::failure(
                        manifest::wrong_directory(
                            normal_uri(self.work_dir@),
                            normal_uri(work_dir@),
                        ),
                    ),
                )
            }),
    {
        let requested = normalize_ssh_uri(work_dir);
        let recorded = normalize_ssh_uri(self.work_dir.as_str());
        let chars = text::chars_of(requested.as_str());
        if text::equals(chars.as_slice(), recorded.as_str()) {
            Ok(requested)
        } else {
            Err(belongs_elsewhere(recorded.as_str(), requested.as_str()))
        }
    }
}

// ---------------------------------------------------------------------
// Replies of the other machine
// ---------------------------------------------------------------------

/// A field of a reply.
pub open spec fn field(reply: JsonModel, name: Seq<char>) -> Option<JsonModel> {
    match reply {
        JsonModel::Object(fields) => json::lookup(fields, name),
        _ => None,
    }
}

/// A field of a reply.
fn get_field<'a>(reply: &'a Json, name: &str) -> (r: Option<&'a Json>)
    ensures
        match r {
            Some(v) => field(reply.model(), name@) == Some(v.model()),
            None => field(reply.model(), name@) is None,
        },
{
    match reply {
        Json::Object(fields) => json::get(fields, name),
        _ => None,
    }
}

/// Whether a field of a reply is true.
pub open spec fn flag(reply: JsonModel, name: Seq<char>) -> bool {
    field(reply, name) == Some(JsonModel::Bool(true))
}

/// Whether a field of a reply is true.
fn get_flag(reply: &Json, name: &str) -> (r: bool)
    ensures
        r == flag(reply.model(), name@),
{
    match get_field(reply, name) {
        Some(Json::Bool(b)) => *b,
        _ => false,
    }
}

/// The number in a field of a reply, or zero.
pub open spec fn number(reply: JsonModel, name: Seq<char>) -> u64 {
    match field(reply, name) {
        Some(JsonModel::UInt(n)) => n,
        Some(JsonModel::Int(n)) => if n >= 0 {
            n as u64
        } else {
            0
        },
        _ => 0,
    }
}

/// The number in a field of a reply, or zero.
fn get_number(reply: &Json, name: &str) -> (r: u64)
    ensures
        r == number(reply.model(), name@),
{
    match get_field(reply, name) {
        Some(Json::UInt(n)) => *n,
        Some(Json::Int(n)) => {
            if *n >= 0 {
                *n as u64
            } else {
                0
            }
        },
        _ => 0,
    }
}

/// The text in a field of a reply.
fn get_string(reply: &Json, name: &str) -> (r: Option<String>)
    ensures
        r.deep_view() == json::as_text(field(reply.model(), name@)),
{
    match get_field(reply, name) {
        Some(Json::Str(s)) => Some(s.clone()),
        _ => None,
    }
}

/// The list in a field of a reply; empty where there is none.
pub open spec fn list(reply: JsonModel, name: Seq<char>) -> Seq<JsonModel> {
    match field(reply, name) {
        Some(JsonModel::Array(items)) => items,
        _ => Seq::empty(),
    }
}

/// What is at an address.
#[derive(Clone, Copy, PartialEq, Eq, Structural, Debug)]
pub struct RemoteFileStat {
    pub is_directory: bool,
    pub size: u64,
    pub mtime_ms: u64,
}

impl DeepView for RemoteFileStat {
    type V = RemoteFileStat;

    open spec fn deep_view(&self) -> RemoteFileStat {
        *self
    }
}

/// What a reply says is at an address.
pub open spec fn stat_in(reply: JsonModel) -> RemoteFileStat {
    RemoteFileStat {
        is_directory: flag(reply, "isDirectory"@),
        size: number(reply, "size"@),
        mtime_ms: number(reply, "mtimeMs"@),
    }
}

/// What a reply says is at an address.
fn get_stat(reply: &Json) -> (r: RemoteFileStat)
    ensures
        r == stat_in(reply.model()),
{
    RemoteFileStat {
        is_directory: get_flag(reply, "isDirectory"),
        size: get_number(reply, "size"),
        mtime_ms: get_number(reply, "mtimeMs"),
    }
}

/// Reads the reply to the question what is at an address.
pub fn stat(reply: &Json) -> (r: Option<RemoteFileStat>)
    ensures
        r == (if flag(reply.model(), "exists"@) {
            Some(stat_in(reply.model()))
        } else {
            None
        }),
{
    if get_flag(reply, "exists") {
        Some(get_stat(reply))
    } else {
        None
    }
}

/// A file or directory on the other machine.
pub struct RemoteTreeEntry {
    pub path: String,
    pub is_directory: bool,
    pub size: u64,
    pub mtime_ms: u64,
}

/// The mathematical form of a file or directory.
pub struct TreeEntryModel {
    pub path: Seq<char>,
    pub stat: RemoteFileStat,
}

impl DeepView for RemoteTreeEntry {
    type V = TreeEntryModel;

    open spec fn deep_view(&self) -> TreeEntryModel {
        TreeEntryModel {
            path: self.path@,
            stat: RemoteFileStat {
                is_directory: self.is_directory,
                size: self.size,
                mtime_ms: self.mtime_ms,
            },
        }
    }
}

/// The ignore rules of a directory on the other machine.
pub struct RemoteGitignore {
    pub dir: String,
    pub content: String,
}

/// The mathematical form of ignore rules.
pub struct IgnoreModel {
    pub dir: Seq<char>,
    pub content: Seq<char>,
}

impl DeepView for RemoteGitignore {
    type V = IgnoreModel;

    open spec fn deep_view(&self) -> IgnoreModel {
        IgnoreModel { dir: self.dir@, content: self.content@ }
    }
}

impl Copied for RemoteGitignore {
    fn copied(&self) -> (out: Self) {
        RemoteGitignore { dir: self.dir.clone(), content: self.content.clone() }
    }
}

/// The files and ignore rules of a directory on the other machine.
pub struct RemoteTreeListing {
    pub entries: Vec<RemoteTreeEntry>,
    pub gitignores: Vec<RemoteGitignore>,
}

/// The file or directory that an item of a reply stands for.
pub open spec fn tree_entry() -> spec_fn(JsonModel) -> Option<TreeEntryModel> {
    |item: JsonModel|
        match json::as_text(field(item, "path"@)) {
            Some(path) => Some(TreeEntryModel { path, stat: stat_in(item) }),
            None => None,
        }
}

/// The ignore rules that an item of a reply stands for.
pub open spec fn ignore_rules() -> spec_fn(JsonModel) -> Option<IgnoreModel> {
    |item: JsonModel|
        match (json::as_text(field(item, "dir"@)), json::as_text(field(item, "content"@))) {
            (Some(dir), Some(content)) => Some(IgnoreModel { dir, content }),
            _ => None,
        }
}

proof fn lemma_filter_map_next<A, B>(s: Seq<A>, f: spec_fn(A) -> Option<B>, i: int)
    requires
        0 <= i < s.len(),
    ensures
        s.take(i + 1).filter_map(f) == (match f(s[i]) {
            Some(b) => s.take(i).filter_map(f).push(b),
            None => s.take(i).filter_map(f),
        }),
{
    reveal_with_fuel(Seq::filter_map, 2);
    assert(s.take(i + 1).drop_last() =~= s.take(i));
}

/// Reads the files and directories of a list.
fn read_entries(items: &Vec<Json>) -> (out: Vec<RemoteTreeEntry>)
    ensures
        out.deep_view() == json::item_models(items@).filter_map(tree_entry()),
{
    let ghost all = json::item_models(items@);
    let mut out: Vec<RemoteTreeEntry> = Vec::new();
    let mut i: usize = 0;
    proof {
        json::lemma_item_models(items@);
        reveal_with_fuel(Seq::filter_map, 2);
        assert(out.deep_view() =~= all.take(0).filter_map(tree_entry()));
    }
    while i < items.len()
        invariant
            i <= items@.len() == all.len(),
            all == json::item_models(items@),
            forall|j: int| 0 <= j < items@.len() ==> #[trigger] all[j] == items@[j].model(),
            out.deep_view() == all.take(i as int).filter_map(tree_entry()),
        decreases items@.len() - i,
    {
        let ghost before = out.deep_view();
        let item = &items[i];
        proof {
            lemma_filter_map_next(all, tree_entry(), i as int);
            assert(all[i as int] == item.model());
        }
        match get_string(item, "path") {
            Some(path) => {
                let s = get_stat(item);
                let entry = RemoteTreeEntry {
                    path,
                    is_directory: s.is_directory,
                    size: s.size,
                    mtime_ms: s.mtime_ms,
                };
                out.push(entry);
                proof {
                    assert(out.deep_view() =~= before.push(entry.deep_view()));
                }
            },
            None => {},
        }
        i += 1;
    }
    proof {
        assert(all.take(i as int) =~= all);
    }
    out
}

/// Reads the ignore rules of a list.
fn read_ignores(items: &Vec<Json>) -> (out: Vec<RemoteGitignore>)
    ensures
        out.deep_view() == json::item_models(items@).filter_map(ignore_rules()),
{
    let ghost all = json::item_models(items@);
    let mut out: Vec<RemoteGitignore> = Vec::new();
    let mut i: usize = 0;
    proof {
        json::lemma_item_models(items@);
        reveal_with_fuel(Seq::filter_map, 2);
        assert(out.deep_view() =~= all.take(0).filter_map(ignore_rules()));
    }
    while i < items.len()
        invariant
            i <= items@.len() == all.len(),
            all == json::item_models(items@),
            forall|j: int| 0 <= j < items@.len() ==> #[trigger] all[j] == items@[j].model(),
            out.deep_view() == all.take(i as int).filter_map(ignore_rules()),
        decreases items@.len() - i,
    {
        let ghost before = out.deep_view();
        let item = &items[i];
        proof {
            lemma_filter_map_next(all, ignore_rules(), i as int);
            assert(all[i as int] == item.model());
        }
        match (get_string(item, "dir"), get_string(item, "content")) {
            (Some(dir), Some(content)) => {
                let rules = RemoteGitignore { dir, content };
                out.push(rules);
                proof {
                    assert(out.deep_view() =~= before.push(rules.deep_view()));
                }
            },
            _ => {},
        }
        i += 1;
    }
    proof {
        assert(all.take(i as int) =~= all);
    }
    out
}

/// Reads the reply to the question what a directory holds. Items without a
/// path, and rules without a directory or a text, are left out.
pub fn list_tree(reply: &Json) -> (r: RemoteTreeListing)
    ensures
        r.entries.deep_view() == list(reply.model(), "entries"@).filter_map(tree_entry()),
        r.gitignores.deep_view() == list(reply.model(), "gitignores"@).filter_map(ignore_rules()),
{
    proof {
        reveal_with_fuel(Seq::filter_map, 2);
    }
    let entries = match get_field(reply, "entries") {
        Some(Json::Array(items)) => read_entries(items),
        _ => {
            let none: Vec<RemoteTreeEntry> = Vec::new();
            proof {
                assert(none.deep_view() =~= Seq::<JsonModel>::empty().filter_map(tree_entry()));
            }
            none
        },
    };
    let gitignores = match get_field(reply, "gitignores") {
        Some(Json::Array(items)) => read_ignores(items),
        _ => {
            let none: Vec<RemoteGitignore> = Vec::new();
            proof {
                assert(none.deep_view() =~= Seq::<JsonModel>::empty().filter_map(ignore_rules()));
            }
            none
        },
    };
    RemoteTreeListing { entries, gitignores }
}

/// The content that a reply holds.
pub open spec fn content_in(reply: JsonModel) -> Result<Option<Seq<u8>>, ErrorModel> {
    match json::as_text(field(reply, "content"@)) {
        None => Ok(None),
        Some(encoded) => match sql::base64_bytes(encoded) {
            Ok(bytes) => Ok(Some(bytes)),
            Err(message) => Err(
                error::failure("Failed to decode remote checkpoint file content: "@ + message),
            ),
        },
    }
}

/// The view of content that was read.
pub open spec fn read_view(r: Result<Option<Vec<u8>>, StorageError>) -> Result<
    Option<Seq<u8>>,
    ErrorModel,
> {
    match r {
        Ok(Some(bytes)) => Ok(Some(bytes@)),
        Ok(None) => Ok(None),
        Err(e) => Err(e.deep_view()),
    }
}

/// Reads the reply to the question what a file holds; no content where
/// there is no file.
pub fn read_bytes(reply: &Json) -> (r: Result<Option<Vec<u8>>, StorageError>)
    ensures
        read_view(r) == content_in(reply.model()),
{
    match get_string(reply, "content") {
        None => Ok(None),
        Some(encoded) => match decode_base64(encoded.as_str()) {
            Ok(bytes) => Ok(Some(bytes)),
            Err(message) => {
                let mut reason = "Failed to decode remote checkpoint file content: ".to_string();
                reason.append(message.as_str());
                Err(StorageError::from_reason(reason.as_str()))
            },
        },
    }
}

/// The form in which content is sent to be written. It reads back as that
/// content.
pub fn write_bytes(content: &Vec<u8>) -> (out: String)
    requires
        content@.len() <= usize::MAX / 4,
    ensures
        out@ == sql::base64_text(content@),
        sql::base64_bytes(out@) == Ok::<Seq<u8>, Seq<char>>(content@),
{
    encode_base64(content)
}

/// Reads the reply to the request to delete a file.
pub fn delete_file(path: &str, reply: &Json) -> (r: Result<(), StorageError>)
    ensures
        error::result_view(r) == (if flag(reply.model(), "deleted"@) {
            Ok(())
        } else {
            Err(error::failure("Failed to delete remote file '"@ + path@ + "'"@))
        }),
{
    if get_flag(reply, "deleted") {
        return Ok(());
    }
    let mut reason = "Failed to delete remote file '".to_string();
    reason.append(path);
    reason.append("'");
    Err(StorageError::from_reason(reason.as_str()))
}

/// Reads the reply to the request to remove an empty directory.
pub fn remove_dir(reply: &Json) -> (r: bool)
    ensures
        r == flag(reply.model(), "removed"@),
{
    get_flag(reply, "removed")
}

/// The address of a working directory, where it is one and a directory is
/// there.
pub open spec fn remote_root(
    work_dir: Seq<char>,
    is_ssh: bool,
    there: Option<RemoteFileStat>,
) -> Result<Seq<char>, ErrorModel> {
    if !is_ssh {
        Err(error::failure("Working directory is not an SSH path: "@ + work_dir))
    } else {
        match there {
            None => Err(error::failure("Remote working directory does not exist: "@ + work_dir)),
            Some(s) => if s.is_directory {
                Ok(normal_uri(text::trimmed(work_dir)))
            } else {
                Err(error::failure("Path is not a directory: "@ + work_dir))
            },
        }
    }
}

/// The error for a working directory that cannot be used.
fn unusable(what: &str, work_dir: &str) -> (e: StorageError)
    ensures
        e.deep_view() == error::failure(what@ + work_dir@),
{
    let mut reason = what.to_string();
    reason.append(work_dir);
    StorageError::from_reason(reason.as_str())
}

/// The address of a working directory, where it is one and a directory is
/// there.
pub fn canonical_work_dir_remote(
    work_dir: &str,
    is_ssh: bool,
    there: Option<RemoteFileStat>,
) -> (r: Result<String, StorageError>)
    ensures
        error::result_view(r) == remote_root(work_dir@, is_ssh, there),
{
    if !is_ssh {
        return Err(unusable("Working directory is not an SSH path: ", work_dir));
    }
    match there {
        None => Err(unusable("Remote working directory does not exist: ", work_dir)),
        Some(s) => {
            if s.is_directory {
                let chars = text::chars_of(work_dir);
                let plain = text::string_of(text::trim(chars.as_slice()));
                Ok(normalize_ssh_uri(plain.as_str()))
            } else {
                Err(unusable("Path is not a directory: ", work_dir))
            }
        },
    }
}

// ---------------------------------------------------------------------
// Files and ignore rules
// ---------------------------------------------------------------------

/// What the list says of a file.
pub open spec fn stat_of(tree: Seq<TreeEntryModel>, path: Seq<char>) -> Option<RemoteFileStat>
    decreases tree.len(),
{
    if tree.len() == 0 {
        None
    } else if tree.last().path == path && !tree.last().stat.is_directory {
        Some(tree.last().stat)
    } else {
        stat_of(tree.drop_last(), path)
    }
}

/// What the list says of a file; directories are no files.
pub fn remote_stat_map(tree: &Vec<RemoteTreeEntry>, path: &str) -> (r: Option<RemoteFileStat>)
    ensures
        r == stat_of(tree.deep_view(), path@),
{
    let ghost all = tree.deep_view();
    let wanted = text::chars_of(path);
    let mut i: usize = tree.len();
    proof {
        assert(all.take(i as int) =~= all);
    }
    while i > 0
        invariant
            i <= tree@.len(),
            all == tree.deep_view(),
            wanted@ == path@,
            stat_of(all, path@) == stat_of(all.take(i as int), path@),
        decreases i,
    {
        let e = &tree[i - 1];
        proof {
            assert(all.take(i as int).last() == all[i - 1]);
            assert(all.take(i as int).drop_last() =~= all.take(i - 1));
            assert(all[i - 1] == tree@[i - 1].deep_view());
        }
        if !e.is_directory && text::equals(wanted.as_slice(), e.path.as_str()) {
            return Some(
                RemoteFileStat { is_directory: e.is_directory, size: e.size, mtime_ms: e.mtime_ms },
            );
        }
        i -= 1;
    }
    None
}

/// Rules of upper directories first.
pub open spec fn upper_first() -> spec_fn(IgnoreModel, IgnoreModel) -> bool {
    |a: IgnoreModel, b: IgnoreModel| restore::slashes(a.dir) <= restore::slashes(b.dir)
}

struct UpperFirst;

impl Ranking<RemoteGitignore> for UpperFirst {
    open spec fn order() -> spec_fn(RemoteGitignore, RemoteGitignore) -> bool {
        |a: RemoteGitignore, b: RemoteGitignore|
            restore::slashes(a.dir@) <= restore::slashes(b.dir@)
    }

    proof fn laws() {
    }

    fn in_order(a: &RemoteGitignore, b: &RemoteGitignore) -> (r: bool) {
        count_slashes(a.dir.as_str()) <= count_slashes(b.dir.as_str())
    }
}

/// Ignore rules in the order in which they are loaded.
pub struct MatcherRules {
    pub root: Option<String>,
    pub directories: Vec<RemoteGitignore>,
}

/// The rules of the working directory itself among ignore rules.
pub open spec fn root_rules(rules: Seq<IgnoreModel>) -> Option<Seq<char>> {
    match rows::first_row(rules, |r: IgnoreModel| r.dir.len() == 0) {
        Some(r) => Some(r.content),
        None => None,
    }
}

/// Puts ignore rules in the order in which they are loaded: those of the
/// working directory, then those of its directories, upper ones first, so
/// that those of lower ones override them.
pub fn build_remote_matcher(gitignores: Vec<RemoteGitignore>) -> (r: MatcherRules)
    ensures
        r.root.deep_view() == root_rules(order::sorted(gitignores.deep_view(), upper_first())),
        r.directories.deep_view() == order::sorted(gitignores.deep_view(), upper_first()).filter(
            |r: IgnoreModel| r.dir.len() > 0,
        ),
{
    let ghost f = |x: RemoteGitignore| x.deep_view();
    proof {
        assert(gitignores.deep_view() =~= gitignores@.map_values(f));
        order::lemma_sorted_map(gitignores@, UpperFirst::order(), f, upper_first());
    }
    let rules = order::sort::<RemoteGitignore, UpperFirst>(gitignores);
    proof {
        assert(rules.deep_view() =~= rules@.map_values(f));
    }
    let at_top = |r: &RemoteGitignore| -> (b: bool)
        ensures
            b == (r.deep_view().dir.len() == 0),
        {
            let dir = text::chars_of(r.dir.as_str());
            dir.len() == 0
        };
    let below = |r: &RemoteGitignore| -> (b: bool)
        ensures
            b == (r.deep_view().dir.len() > 0),
        {
            let dir = text::chars_of(r.dir.as_str());
            dir.len() > 0
        };
    let root = match find_row(&rules, at_top, Ghost(|r: IgnoreModel| r.dir.len() == 0)) {
        Some(r) => Some(r.content.clone()),
        None => None,
    };
    let directories = keep_rows(&rules, below, Ghost(|r: IgnoreModel| r.dir.len() > 0));
    MatcherRules { root, directories }
}

/// The path of the first parts of a path.
pub open spec fn first_parts(path: Seq<char>, n: int) -> Seq<char> {
    text::joined(text::split_char(path, '/').take(n), "/"@)
}

/// The directories that lead to a file, from the top.
pub open spec fn directories_above(path: Seq<char>) -> Seq<Seq<char>> {
    Seq::new(
        (text::split_char(path, '/').len() - 1) as nat,
        |i: int| first_parts(path, i + 1),
    )
}

/// The directories that lead to a file, from the top: what the ignore rules
/// are asked about, each as a directory.
pub fn ancestors_of(path: &str) -> (out: Vec<String>)
    ensures
        out.deep_view() == directories_above(path@),
{
    let chars = text::chars_of(path);
    let parts = text::split_at_char(chars.as_slice(), '/');
    let ghost all = text::split_char(path@, '/');
    let mut out: Vec<String> = Vec::new();
    let mut so_far: Vec<Vec<char>> = Vec::new();
    let mut i: usize = 0;
    proof {
        assert(text::texts(so_far@) =~= all.take(0));
    }
    let last: usize = parts.len() - 1;
    while i < last
        invariant
            i <= last,
            last + 1 == parts@.len(),
            all == text::split_char(path@, '/'),
            text::texts(parts@) == all,
            text::texts(so_far@) == all.take(i as int),
            out@.len() == i,
            forall|j: int| 0 <= j < i ==> (#[trigger] out@[j])@ == first_parts(path@, j + 1),
        decreases last - i,
    {
        let ghost before = text::texts(so_far@);
        so_far.push(text::copy_of(parts[i].as_slice()));
        proof {
            assert(all[i as int] == parts@[i as int]@);
            assert(text::texts(so_far@) =~= before.push(all[i as int]));
            assert(all.take(i + 1) =~= before.push(all[i as int]));
        }
        let joined = text::join(&so_far, "/");
        out.push(text::string_of(joined.as_slice()));
        i += 1;
    }
    proof {
        assert(out.deep_view() =~= directories_above(path@));
    }
    out
}

/// Whether a file is ignored: the rules leave out one of the directories
/// that lead to it, or the file itself.
pub fn is_ignored_with_ancestors(as_directories: &Vec<bool>, as_file: bool) -> (r: bool)
    ensures
        r == (as_file || as_directories@.contains(true)),
{
    let mut i: usize = 0;
    while i < as_directories.len()
        invariant
            i <= as_directories@.len(),
            forall|j: int| 0 <= j < i ==> !as_directories@[j],
        decreases as_directories@.len() - i,
    {
        if as_directories[i] {
            proof {
                assert(as_directories@[i as int]);
            }
            return true;
        }
        i += 1;
    }
    as_file
}

/// What the ignore rules say of a file: of each directory that leads to it,
/// asked about as a directory, and of itself, asked about as a file.
pub struct IgnoreAnswers {
    pub as_directories: Vec<bool>,
    pub as_file: bool,
}

/// The mathematical form of what the ignore rules say.
pub struct AnswersModel {
    pub as_directories: Seq<bool>,
    pub as_file: bool,
}

impl DeepView for IgnoreAnswers {
    type V = AnswersModel;

    open spec fn deep_view(&self) -> AnswersModel {
        AnswersModel { as_directories: self.as_directories@, as_file: self.as_file }
    }
}

/// Whether the rules leave a file out.
pub open spec fn leaves_out(a: AnswersModel) -> bool {
    a.as_file || a.as_directories.contains(true)
}

/// The first files and directories of a list, without those that are
/// ignored.
pub open spec fn not_ignored(
    entries: Seq<TreeEntryModel>,
    answers: Seq<AnswersModel>,
    n: int,
) -> Seq<TreeEntryModel>
    decreases n,
{
    if n <= 0 {
        Seq::empty()
    } else {
        let so_far = not_ignored(entries, answers, n - 1);
        if leaves_out(answers[n - 1]) {
            so_far
        } else {
            so_far.push(entries[n - 1])
        }
    }
}

/// The files and directories of a list that the rules do not leave out,
/// given what the rules say of each.
pub fn filter_remote_tree(entries: &Vec<RemoteTreeEntry>, answers: &Vec<IgnoreAnswers>) -> (out: Vec<
    RemoteTreeEntry,
>)
    requires
        answers@.len() == entries@.len(),
    ensures
        out.deep_view() == not_ignored(
            entries.deep_view(),
            answers.deep_view(),
            entries@.len() as int,
        ),
{
    let ghost all = entries.deep_view();
    let ghost told = answers.deep_view();
    let mut out: Vec<RemoteTreeEntry> = Vec::new();
    let mut i: usize = 0;
    proof {
        assert(out.deep_view() =~= Seq::empty());
    }
    while i < entries.len()
        invariant
            i <= entries@.len() == answers@.len(),
            all == entries.deep_view(),
            told == answers.deep_view(),
            out.deep_view() == not_ignored(all, told, i as int),
        decreases entries@.len() - i,
    {
        let entry = &entries[i];
        let answer = &answers[i];
        proof {
            assert(all[i as int] == entries@[i as int].deep_view());
            assert(told[i as int] == answers@[i as int].deep_view());
        }
        if !is_ignored_with_ancestors(&answer.as_directories, answer.as_file) {
            let ghost before = out.deep_view();
            let kept = RemoteTreeEntry {
                path: entry.path.clone(),
                is_directory: entry.is_directory,
                size: entry.size,
                mtime_ms: entry.mtime_ms,
            };
            out.push(kept);
            proof {
                assert(out.deep_view() =~= before.push(kept.deep_view()));
            }
        }
        i += 1;
    }
    out
}

// ---------------------------------------------------------------------
// What is seen of a recorded file
// ---------------------------------------------------------------------

/// What reading a file of the other machine gave. A file is read only where
/// its size does not tell the difference.
pub enum RemoteRead {
    Unread,
    Gone,
    Content(Vec<u8>),
    Failed(StorageError),
}

/// The mathematical form of a read.
pub enum RemoteReadModel {
    Unread,
    Gone,
    Content(Seq<u8>),
    Failed(ErrorModel),
}

impl DeepView for RemoteRead {
    type V = RemoteReadModel;

    open spec fn deep_view(&self) -> RemoteReadModel {
        match self {
            RemoteRead::Unread => RemoteReadModel::Unread,
            RemoteRead::Gone => RemoteReadModel::Gone,
            RemoteRead::Content(bytes) => RemoteReadModel::Content(bytes@),
            RemoteRead::Failed(e) => RemoteReadModel::Failed(e.deep_view()),
        }
    }
}

/// What is seen of a file of the other machine.
pub struct RemoteSight {
    pub stat: Option<RemoteFileStat>,
    pub read: RemoteRead,
}

/// The mathematical form of what is seen.
pub struct RemoteSightModel {
    pub stat: Option<RemoteFileStat>,
    pub read: RemoteReadModel,
}

impl DeepView for RemoteSight {
    type V = RemoteSightModel;

    open spec fn deep_view(&self) -> RemoteSightModel {
        RemoteSightModel { stat: self.stat, read: self.read.deep_view() }
    }
}

/// The message for a file that should have been read.
pub open spec fn unread_message(path: Seq<char>) -> Seq<char> {
    "Remote checkpoint file was not read: "@ + path
}

/// The error for a file that should have been read.
fn unread(path: &str) -> (e: StorageError)
    ensures
        e.deep_view() == error::failure(unread_message(path@)),
{
    let mut reason = "Remote checkpoint file was not read: ".to_string();
    reason.append(path);
    StorageError::from_reason(reason.as_str())
}

/// Whether the content of a file is needed to tell it from stored content.
pub fn needs_content(stat: Option<RemoteFileStat>, state: &OriginalState, stored: &Stored) -> (r:
    bool)
    ensures
        r == (stat is Some && state.deep_view() is Object && (match stored.deep_view() {
            StoredModel::Content(bytes) => stat->Some_0.size == bytes.len(),
            _ => false,
        })),
{
    match (stat, state, stored) {
        (Some(s), OriginalState::Object { .. }, Stored::Content(bytes)) => s.size
            == bytes.len() as u64,
        _ => false,
    }
}

/// How a file of the other machine differs from a state.
pub open spec fn remote_change(
    seen: RemoteSightModel,
    path: Seq<char>,
    state: StateModel,
    stored: StoredModel,
) -> Result<Option<ChangeType>, ErrorModel> {
    match state {
        StateModel::Missing => Ok(sight::against_nothing(seen.stat is Some)),
        StateModel::Object { .. } => match (seen.stat, stored) {
            (None, _) => Ok(Some(ChangeType::Deleted)),
            (Some(s), StoredModel::Content(bytes)) => if s.size != bytes.len() {
                Ok(Some(ChangeType::Modified))
            } else {
                match seen.read {
                    RemoteReadModel::Gone => Ok(Some(ChangeType::Deleted)),
                    RemoteReadModel::Failed(e) => Err(e),
                    RemoteReadModel::Unread => Err(error::failure(unread_message(path))),
                    RemoteReadModel::Content(now) => if now == bytes {
                        Ok(None)
                    } else {
                        Ok(Some(ChangeType::Modified))
                    },
                }
            },
            _ => Ok(Some(ChangeType::Modified)),
        },
        StateModel::Git => Err(
            error::failure("Checkpoint Git baseline is missing for '"@ + path + "'"@),
        ),
    }
}

impl Sight for RemoteSight {
    open spec fn reads_git() -> bool {
        false
    }

    open spec fn change(
        seen: RemoteSightModel,
        path: Seq<char>,
        state: StateModel,
        has_git: bool,
        stored: StoredModel,
    ) -> Result<Option<ChangeType>, ErrorModel> {
        remote_change(seen, path, state, stored)
    }

    open spec fn stat(seen: RemoteSightModel) -> Option<FileStat> {
        match seen.stat {
            Some(s) => Some(FileStat { mtime_ms: s.mtime_ms, size: s.size }),
            None => None,
        }
    }

    open spec fn content(seen: RemoteSightModel, path: Seq<char>) -> Result<
        Option<Seq<u8>>,
        ErrorModel,
    > {
        match (seen.stat, seen.read) {
            (None, _) => Ok(None),
            (Some(_), RemoteReadModel::Gone) => Ok(None),
            (Some(_), RemoteReadModel::Content(bytes)) => Ok(Some(bytes)),
            (Some(_), RemoteReadModel::Failed(e)) => Err(e),
            (Some(_), RemoteReadModel::Unread) => Err(error::failure(unread_message(path))),
        }
    }

    open spec fn sees(seen: RemoteSightModel, content: Option<Seq<u8>>) -> bool {
        match content {
            Some(bytes) => seen.stat is Some && seen.stat->Some_0.size == bytes.len() && seen.read
                == RemoteReadModel::Content(bytes),
            None => seen.stat is None,
        }
    }

    proof fn lemma_same(
        seen: RemoteSightModel,
        path: Seq<char>,
        content: Option<Seq<u8>>,
        state: StateModel,
        has_git: bool,
        stored: StoredModel,
    ) {
    }

    proof fn lemma_tells(
        seen: RemoteSightModel,
        path: Seq<char>,
        content: Option<Seq<u8>>,
        state: StateModel,
        has_git: bool,
        stored: StoredModel,
    ) {
    }

    proof fn lemma_names(
        seen: RemoteSightModel,
        path: Seq<char>,
        content: Option<Seq<u8>>,
        state: StateModel,
        has_git: bool,
        stored: StoredModel,
    ) {
    }

    proof fn lemma_shows(seen: RemoteSightModel, path: Seq<char>, content: Option<Seq<u8>>) {
    }

    fn can_read_git() -> (r: bool) {
        false
    }

    fn classify_change(
        &self,
        path: &str,
        state: &OriginalState,
        has_git: bool,
        stored: &Stored,
    ) -> (r: Result<Option<ChangeType>, StorageError>) {
        match state {
            OriginalState::Missing => {
                if self.stat.is_some() {
                    Ok(Some(ChangeType::Added))
                } else {
                    Ok(None)
                }
            },
            OriginalState::Object { .. } => match (self.stat, stored) {
                (None, _) => Ok(Some(ChangeType::Deleted)),
                (Some(s), Stored::Content(bytes)) => {
                    if s.size != bytes.len() as u64 {
                        return Ok(Some(ChangeType::Modified));
                    }
                    match &self.read {
                        RemoteRead::Gone => Ok(Some(ChangeType::Deleted)),
                        RemoteRead::Failed(e) => Err(e.duplicate()),
                        RemoteRead::Unread => Err(unread(path)),
                        RemoteRead::Content(now) => {
                            if same_content(now.as_slice(), bytes.as_slice()) {
                                Ok(None)
                            } else {
                                Ok(Some(ChangeType::Modified))
                            }
                        },
                    }
                },
                _ => Ok(Some(ChangeType::Modified)),
            },
            OriginalState::Git => {
                let mut reason = "Checkpoint Git baseline is missing for '".to_string();
                reason.append(path);
                reason.append("'");
                Err(StorageError::from_reason(reason.as_str()))
            },
        }
    }

    fn file_stat(&self) -> (r: Option<FileStat>) {
        match self.stat {
            Some(s) => Some(FileStat { mtime_ms: s.mtime_ms, size: s.size }),
            None => None,
        }
    }

    fn shown_content(&self, path: &str) -> (r: Result<Option<&Vec<u8>>, StorageError>) {
        if self.stat.is_none() {
            return Ok(None);
        }
        match &self.read {
            RemoteRead::Gone => Ok(None),
            RemoteRead::Content(bytes) => Ok(Some(bytes)),
            RemoteRead::Failed(e) => Err(e.duplicate()),
            RemoteRead::Unread => Err(unread(path)),
        }
    }
}

/// What reading a file of the other machine gave, for telling its state.
pub fn remote_file(there: Option<RemoteFileStat>, read: Option<Vec<u8>>) -> (r: FileRead)
    ensures
        r.deep_view() == (match there {
            None => content::ReadModel::Missing,
            Some(s) => if s.is_directory {
                content::ReadModel::NotRegular
            } else {
                match read {
                    Some(bytes) => content::ReadModel::Content(bytes@),
                    None => content::ReadModel::Missing,
                }
            },
        }),
{
    match there {
        None => FileRead::Missing,
        Some(s) => {
            if s.is_directory {
                FileRead::NotRegular
            } else {
                match read {
                    Some(bytes) => FileRead::Content(bytes),
                    None => FileRead::Missing,
                }
            }
        },
    }
}

// ---------------------------------------------------------------------
// The operations
// ---------------------------------------------------------------------

/// A file of the list that is captured.
pub open spec fn captured_file() -> spec_fn(TreeEntryModel) -> Option<ListedModel> {
    |e: TreeEntryModel|
        if e.stat.is_directory || paths::skips(e.path) {
            None
        } else {
            Some(
                ListedModel {
                    path: e.path,
                    mtime_ms: e.stat.mtime_ms,
                    size: e.stat.size,
                    copied: None,
                },
            )
        }
}

/// The files of a list that are captured before a command: no directories,
/// and nothing in a directory that is never recorded.
pub fn files_to_capture(tree: &Vec<RemoteTreeEntry>) -> (r: WorktreeListing)
    ensures
        r.deep_view() == (WorktreeModel {
            source: ListingSource::Remote,
            files: tree.deep_view().filter_map(captured_file()),
            under_git: Seq::empty(),
        }),
{
    let choose_file = |e: &RemoteTreeEntry| -> (r: Option<ListedFile>)
        ensures
            r.deep_view() == captured_file()(e.deep_view()),
        {
            if e.is_directory || should_skip_relative(e.path.as_str()) {
                None
            } else {
                Some(
                    ListedFile {
                        path: e.path.clone(),
                        mtime_ms: e.mtime_ms,
                        size: e.size,
                        copied: None,
                    },
                )
            }
        };
    let files = select_rows(tree, choose_file, Ghost(captured_file()));
    let under_git: Vec<String> = Vec::new();
    proof {
        assert(under_git.deep_view() =~= Seq::empty());
    }
    WorktreeListing { source: ListingSource::Remote, files, under_git }
}

/// The paths of the files of a list.
pub open spec fn file_paths(tree: Seq<TreeEntryModel>) -> Seq<Seq<char>> {
    tree.filter_map(path_of_file())
}

/// The path of a file of a list, or `None` for a directory.
pub open spec fn path_of_file() -> spec_fn(TreeEntryModel) -> Option<Seq<char>> {
    |e: TreeEntryModel|
        if e.stat.is_directory {
            None
        } else {
            Some(e.path)
        }
}

/// Collects the paths of the files of a list.
pub fn files_of_tree(tree: &Vec<RemoteTreeEntry>) -> (out: Vec<String>)
    ensures
        out.deep_view() == file_paths(tree.deep_view()),
{
    let choose_path = |e: &RemoteTreeEntry| -> (r: Option<String>)
        ensures
            r.deep_view() == path_of_file()(e.deep_view()),
        {
            if e.is_directory {
                None
            } else {
                Some(e.path.clone())
            }
        };
    select_rows(tree, choose_path, Ghost(path_of_file()))
}

/// Whether the directory of a manifest is a working directory on another
/// machine.
pub open spec fn of_workspace(work_dir: Seq<char>) -> spec_fn(Seq<char>) -> bool {
    |recorded: Seq<char>| normal_uri(work_dir) == normal_uri(recorded)
}

/// Whether two addresses are those of one directory.
fn is_same_uri(a: &str, b: &str) -> (r: bool)
    ensures
        r == (normal_uri(a@) == normal_uri(b@)),
{
    let first = normalize_ssh_uri(a);
    let second = normalize_ssh_uri(b);
    let chars = text::chars_of(first.as_str());
    text::equals(chars.as_slice(), second.as_str())
}

/// Gives the manifest that is recorded in: one that was found and belongs to
/// the working directory on another machine.
pub fn validate_capture_work_dir_remote(found: Option<CheckpointManifest>, work_dir: &str) -> (r:
    Option<CheckpointManifest>)
    ensures
        r.deep_view() == recording::to_record(found.deep_view(), of_workspace(work_dir@)),
{
    match found {
        Some(m) => match m.validate_manifest_work_dir_remote(work_dir) {
            Ok(_) => Some(m),
            Err(_) => None,
        },
        None => None,
    }
}

/// The checkpoints that record in a working directory on another machine, of
/// those whose manifests were looked for.
pub fn effective_checkpoints_remote(
    ids: &Vec<String>,
    found: &Vec<Option<CheckpointManifest>>,
    work_dir: &str,
) -> (out: Vec<String>)
    requires
        found@.len() <= ids@.len(),
    ensures
        out.deep_view() == recording::effective(
            ids.deep_view(),
            found.deep_view(),
            of_workspace(work_dir@),
        ),
{
    let test = |recorded: &String| -> (b: bool)
        ensures
            b == of_workspace(work_dir@)(recorded@),
        { is_same_uri(work_dir, recorded.as_str()) };
    recording::keep_effective(ids, found, test, Ghost(of_workspace(work_dir@)))
}

/// Records a file on another machine before, or after, a tool changes it, in
/// the manifest that was found of a checkpoint. It asks for what the file
/// holds where that is needed; given that, it is called again.
pub fn record_file_remote(
    found: Option<CheckpointManifest>,
    work_dir: &str,
    path: &str,
    state: Option<OriginalState>,
    after: bool,
) -> (r: FileStep)
    ensures
        r.deep_view() == recording::file_step(
            found.deep_view(),
            of_workspace(work_dir@),
            path@,
            state.deep_view(),
            after,
        ),
{
    recording::record_in(validate_capture_work_dir_remote(found, work_dir), path, state, after)
}

/// A turn of the capture of a working directory on another machine. Git is
/// not consulted there.
pub open spec fn remote_turn(
    ids: Seq<Seq<char>>,
    work_dir: Seq<char>,
    f: CaptureFactsModel,
    marks: Map<Seq<char>, FingerprintModel>,
) -> TurnModel {
    if ids.len() == 0 {
        TurnModel { end: EndModel::Nothing, marks }
    } else if f.root is None {
        TurnModel { end: EndModel::AskDirectory, marks }
    } else {
        before::turn_of(
            ids,
            work_dir,
            f,
            false,
            recording::some_belongs(f.found, of_workspace(work_dir)),
            Some(None),
            marks,
        )
    }
}

/// Captures a working directory on another machine before a command runs in
/// it, for the checkpoints that belong to it. It asks for what must be found
/// out first; given that, it is called again. Where no checkpoint belongs to
/// the directory, nothing is captured.
pub fn capture_checkpoint_worktree_before_remote(
    cache: &mut FingerprintCache,
    checkpoint_ids: &Vec<String>,
    work_dir: &str,
    facts: &CaptureFacts,
) -> (r: CaptureEnd)
    ensures
        (TurnModel { end: r.deep_view(), marks: final(cache).deep_view() }) == remote_turn(
            checkpoint_ids.deep_view(),
            work_dir@,
            facts.deep_view(),
            old(cache).deep_view(),
        ),
{
    if checkpoint_ids.len() == 0 {
        return CaptureEnd::Nothing;
    }
    if facts.root.is_none() {
        return CaptureEnd::AskDirectory;
    }
    let test = |recorded: &String| -> (b: bool)
        ensures
            b == of_workspace(work_dir@)(recorded@),
        { is_same_uri(work_dir, recorded.as_str()) };
    let belongs = recording::find_belonging(&facts.found, test, Ghost(of_workspace(work_dir@)));
    cache.go_on(checkpoint_ids, work_dir, facts, false, belongs, &Some(None))
}

/// On another machine too a capture comes out only where the manifest of one
/// of the checkpoints belongs to the working directory. Once all manifests
/// were looked for and none does, nothing is captured, whatever else was
/// found out; this is no error, and the fingerprints stay.
pub proof fn law_captures_only_for_checkpoints_there(
    ids: Seq<Seq<char>>,
    work_dir: Seq<char>,
    f: CaptureFactsModel,
    marks: Map<Seq<char>, FingerprintModel>,
)
    requires
        f.root is Some,
        f.found.len() <= ids.len(),
    ensures
        ({
            let turn = remote_turn(ids, work_dir, f, marks);
            let belongs = recording::some_belongs(f.found, of_workspace(work_dir));
            &&& !(turn.end is Nothing || turn.end is AskManifest) ==> belongs
            &&& turn.end is Nothing ==> !belongs && f.found.len() == ids.len()
            &&& !belongs && f.found.len() == ids.len() ==> turn == (TurnModel {
                end: EndModel::Nothing,
                marks,
            })
        }),
{
    match f.walked {
        before::ListingReplyModel::Listed(list) => {
            before::lemma_scan_ends(work_dir, list, marks, list.files.len() as int);
        },
        _ => {},
    }
}

/// Whether a manifest belongs to a working directory on another machine.
pub open spec fn is_of(m: ManifestModel, work_dir: Seq<char>) -> bool {
    normal_uri(work_dir) == normal_uri(m.work_dir)
}

/// The error for a manifest that does not.
pub open spec fn not_of(m: ManifestModel, work_dir: Seq<char>) -> ErrorModel {
    error::failure(manifest::wrong_directory(normal_uri(m.work_dir), normal_uri(work_dir)))
}

/// Records the files that a command changed on another machine. A manifest
/// of another directory stays as it is.
pub fn record_checkpoint_worktree_after_remote(
    m: &mut CheckpointManifest,
    capture: &CheckpointWorktreeCapture,
    seen: &Vec<Observed>,
) -> (r: RecordEnd)
    ensures
        ({
            let all = after::recorded_all(
                capture.deep_view(),
                old(m).git is Some,
                old(m).deep_view().entries,
                seen.deep_view(),
                seen@.len() as int,
            );
            if is_of(old(m).deep_view(), capture.work_dir@) {
                &&& r.deep_view() == all.end
                &&& final(m).deep_view() == ManifestModel {
                    entries: all.entries,
                    ..old(m).deep_view()
                }
            } else {
                &&& r.deep_view() == after::RecordEndModel::Done { changed: false }
                &&& *final(m) == *old(m)
            }
        }),
{
    match m.validate_manifest_work_dir_remote(capture.work_dir.as_str()) {
        Ok(_) => m.record_changes(capture, seen),
        Err(_) => RecordEnd::Done { changed: false },
    }
}

/// The files that going back to a checkpoint would change on another
/// machine. A checkpoint that is gone shows none.
pub fn list_checkpoint_changes_remote(
    m: Option<&CheckpointManifest>,
    work_dir: &str,
    facts: &Vec<EntryFacts<RemoteSight>>,
) -> (r: Result<Vec<CheckpointFileChange>, StorageError>)
    requires
        m is Some ==> facts@.len() == m->Some_0.entries@.len(),
    ensures
        error::result_view(r) == (match m {
            None => Ok(Seq::empty()),
            Some(m) => if is_of(m.deep_view(), work_dir@) {
                listing::change_list::<RemoteSight>(m.deep_view(), facts.deep_view())
            } else {
                Err(not_of(m.deep_view(), work_dir@))
            },
        }),
{
    match m {
        None => {
            let none: Vec<CheckpointFileChange> = Vec::new();
            proof {
                assert(none.deep_view() =~= Seq::empty());
            }
            Ok(none)
        },
        Some(m) => match m.validate_manifest_work_dir_remote(work_dir) {
            Ok(_) => list_checkpoint_changes(m, facts),
            Err(e) => Err(e),
        },
    }
}

/// The diffs of the files that changed on another machine. A checkpoint
/// that is gone shows none.
pub fn list_checkpoint_diffs_remote(
    cache: &mut DiffCache,
    checkpoint_id: &str,
    m: Option<&CheckpointManifest>,
    work_dir: &str,
    facts: &Vec<EntryFacts<RemoteSight>>,
    include_all: bool,
) -> (r: Result<Vec<CheckpointFileDiff>, StorageError>)
    requires
        m is Some ==> facts@.len() == m->Some_0.entries@.len(),
    ensures
        (listing::ListingModel { cache: final(cache).deep_view(), diffs: error::result_view(r) })
            == (match m {
            None => listing::ListingModel {
                cache: old(cache).deep_view(),
                diffs: Ok(Seq::empty()),
            },
            Some(m) => if is_of(m.deep_view(), work_dir@) {
                listing::diff_list::<RemoteSight>(
                    checkpoint_id@,
                    m.deep_view(),
                    facts.deep_view(),
                    include_all,
                    old(cache).deep_view(),
                )
            } else {
                listing::ListingModel {
                    cache: old(cache).deep_view(),
                    diffs: Err(not_of(m.deep_view(), work_dir@)),
                }
            },
        }),
{
    match m {
        None => {
            let none: Vec<CheckpointFileDiff> = Vec::new();
            proof {
                assert(none.deep_view() =~= Seq::empty());
            }
            Ok(none)
        },
        Some(m) => match m.validate_manifest_work_dir_remote(work_dir) {
            Ok(_) => cache.list_checkpoint_diffs(checkpoint_id, m, facts, include_all),
            Err(e) => Err(e),
        },
    }
}

/// What going back to a checkpoint does on another machine. A checkpoint
/// that is gone does nothing.
pub fn restore_checkpoint_remote(
    m: Option<&CheckpointManifest>,
    work_dir: &str,
    facts: &Vec<EntryFacts<RemoteSight>>,
) -> (r: RestorePlan)
    requires
        m is Some ==> facts@.len() == m->Some_0.entries@.len(),
    ensures
        r.deep_view() == (match m {
            None => restore::PlanModel { steps: Seq::empty(), failed: None },
            Some(m) => if is_of(m.deep_view(), work_dir@) {
                restore::restore_plan::<RemoteSight>(m.deep_view(), facts.deep_view())
            } else {
                restore::PlanModel {
                    steps: Seq::empty(),
                    failed: Some(not_of(m.deep_view(), work_dir@)),
                }
            },
        }),
{
    let steps: Vec<PlannedRestore> = Vec::new();
    proof {
        assert(steps.deep_view() =~= Seq::empty());
    }
    match m {
        None => RestorePlan { steps, failed: None },
        Some(m) => match m.validate_manifest_work_dir_remote(work_dir) {
            Ok(_) => restore_checkpoint(m, facts),
            Err(e) => RestorePlan { steps, failed: Some(e) },
        },
    }
}

} // verus!
