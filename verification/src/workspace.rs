//! Entries of a workspace, and projects.

use vstd::prelude::*;
use crate::checkpoint::paths;
use crate::checkpoint::paths::{components_of, parts_of, relative_to};
use crate::error;
use crate::error::{ErrorModel, StorageError};
use crate::text;

verus! {

// ---------------------------------------------------------------------
// Entries
// ---------------------------------------------------------------------

/// Whether a path lies below a directory. Both are canonical.
pub open spec fn lies_below(path: Seq<char>, root: Seq<char>) -> bool {
    paths::path_below(path, root) is Some && paths::path_components(path).len()
        > paths::path_components(root).len()
}

/// Refuses an entry that is not below the root of the workspace.
pub fn resolve_workspace_entry(root: &str, entry: &str) -> (r: Result<(), StorageError>)
    ensures
        error::result_view(r) == (if lies_below(entry@, root@) {
            Ok(())
        } else {
            Err(error::failure("Workspace entry is outside the workspace root"@))
        }),
{
    let inner = components_of(entry);
    let outer = components_of(root);
    if relative_to(entry, root).is_some() && inner.len() > outer.len() {
        Ok(())
    } else {
        Err(StorageError::from_reason("Workspace entry is outside the workspace root"))
    }
}

/// Whether a text names one file or directory, and neither the directory
/// that it stands in nor the one above.
pub open spec fn is_plain_name(name: Seq<char>) -> bool {
    let first = text::split_char(name, '/')[0];
    let parts = paths::path_parts(name);
    first.len() > 0 && first != "."@ && parts.len() == 1 && parts[0] != ".."@
}

/// Whether a text names one file or directory.
fn names_one_entry(name: &str) -> (r: bool)
    ensures
        r == is_plain_name(name@),
{
    let chars = text::chars_of(name);
    let pieces = text::split_at_char(chars.as_slice(), '/');
    let parts = parts_of(name);
    proof {
        assert(text::texts(pieces@)[0] == pieces@[0]@);
    }
    if pieces[0].len() == 0 || text::equals(pieces[0].as_slice(), ".") || parts.len() != 1 {
        return false;
    }
    proof {
        assert(text::texts(parts@)[0] == parts@[0]@);
    }
    !text::equals(parts[0].as_slice(), "..")
}

/// The name that an entry is given.
pub open spec fn entry_name(name: Seq<char>) -> Result<Seq<char>, ErrorModel> {
    if is_plain_name(text::trimmed(name)) {
        Ok(text::trimmed(name))
    } else {
        Err(error::failure("Entry name must be a single file or directory name"@))
    }
}

/// The name that an entry is given, without white space around it.
pub fn validate_entry_name(name: &str) -> (r: Result<String, StorageError>)
    ensures
        error::result_view(r) == entry_name(name@),
{
    let chars = text::chars_of(name);
    let plain = text::string_of(text::trim(chars.as_slice()));
    if names_one_entry(plain.as_str()) {
        Ok(plain)
    } else {
        Err(StorageError::from_reason("Entry name must be a single file or directory name"))
    }
}

/// Whether an entry is renamed, and to which name. `taken` tells whether
/// there is something of the new name already.
pub fn rename_workspace_entry(root: &str, entry: &str, new_name: &str, taken: bool) -> (r: Result<
    String,
    StorageError,
>)
    ensures
        error::result_view(r) == (if !lies_below(entry@, root@) {
            Err(error::failure("Workspace entry is outside the workspace root"@))
        } else {
            match entry_name(new_name@) {
                Err(e) => Err(e),
                Ok(name) => if taken {
                    Err(
                        error::failure(
                            "A workspace entry named '"@ + name + "' already exists"@,
                        ),
                    )
                } else {
                    Ok(name)
                },
            }
        }),
{
    match resolve_workspace_entry(root, entry) {
        Ok(_) => {},
        Err(e) => {
            return Err(e);
        },
    }
    match validate_entry_name(new_name) {
        Err(e) => Err(e),
        Ok(name) => {
            if taken {
                let mut reason = "A workspace entry named '".to_string();
                reason.append(name.as_str());
                reason.append("' already exists");
                Err(StorageError::from_reason(reason.as_str()))
            } else {
                Ok(name)
            }
        },
    }
}

/// Whether an entry is deleted.
pub fn delete_workspace_entry(root: &str, entry: &str) -> (r: Result<(), StorageError>)
    ensures
        error::result_view(r) == (if lies_below(entry@, root@) {
            Ok(())
        } else {
            Err(error::failure("Workspace entry is outside the workspace root"@))
        }),
{
    resolve_workspace_entry(root, entry)
}

/// The root of a workspace is never one of its entries.
pub proof fn law_root_is_no_entry(root: Seq<char>)
    ensures
        !lies_below(root, root),
{
}

/// An accepted name has no slash before its end, so that the renamed entry
/// stays in its directory.
pub proof fn law_accepted_name_has_one_part(name: Seq<char>)
    ensures
        match entry_name(name) {
            Ok(plain) => paths::path_parts(plain).len() == 1 && plain.len() > 0 && plain[0] != '/',
            Err(_) => true,
        },
{
    let plain = text::trimmed(name);
    if plain.len() == 0 {
        assert(plain =~= Seq::empty());
        lemma_empty_split();
    } else if plain[0] == '/' {
        lemma_split_at_slash(plain);
    }
}

proof fn lemma_empty_split()
    ensures
        text::split_char(Seq::empty(), '/')[0].len() == 0,
{
    reveal_with_fuel(text::split_char, 2);
    text::lemma_find_from(Seq::empty(), seq!['/'], 0);
}

proof fn lemma_split_at_slash(s: Seq<char>)
    requires
        s.len() > 0,
        s[0] == '/',
    ensures
        text::split_char(s, '/')[0].len() == 0,
{
    reveal_with_fuel(text::split_char, 2);
    assert(s.subrange(0, 1) =~= seq!['/']);
    reveal_with_fuel(text::find_from, 2);
}

// ---------------------------------------------------------------------
// Projects
// ---------------------------------------------------------------------

/// The identifier of a project, without white space around it.
pub open spec fn project_name(project_id: Seq<char>) -> Result<Seq<char>, ErrorModel> {
    if text::trimmed(project_id).len() == 0 {
        Err(error::invalid("Project id is required"@))
    } else {
        Ok(text::trimmed(project_id))
    }
}

/// The identifier of a project, without white space around it.
pub fn check_project_id(project_id: &str) -> (r: Result<String, StorageError>)
    ensures
        error::result_view(r) == project_name(project_id@),
{
    let chars = text::chars_of(project_id);
    let plain = text::trim(chars.as_slice());
    if plain.len() == 0 {
        Err(StorageError::invalid_arg("Project id is required"))
    } else {
        Ok(text::string_of(plain))
    }
}

/// Whether a project has ignore rules: its directory is known and the file
/// is there.
pub fn check_project_has_gitignore(project_id: &str, file_there: Option<bool>) -> (r: Result<
    bool,
    StorageError,
>)
    ensures
        error::result_view(r) == (match project_name(project_id@) {
            Ok(_) => Ok(file_there == Some(true)),
            Err(e) => Err(e),
        }),
{
    match check_project_id(project_id) {
        Ok(_) => Ok(
            match file_there {
                Some(b) => b,
                None => false,
            },
        ),
        Err(e) => Err(e),
    }
}

/// Whether a project lies on another machine, given the kind of its
/// directory where that is known.
pub fn check_project_is_remote(project_id: &str, kind: Option<&str>) -> (r: Result<
    bool,
    StorageError,
>)
    ensures
        error::result_view(r) == (match project_name(project_id@) {
            Ok(_) => Ok(
                match kind {
                    Some(k) => k@ == "ssh"@,
                    None => false,
                },
            ),
            Err(e) => Err(e),
        }),
{
    match check_project_id(project_id) {
        Ok(_) => Ok(
            match kind {
                Some(k) => {
                    let chars = text::chars_of(k);
                    text::equals(chars.as_slice(), "ssh")
                },
                None => false,
            },
        ),
        Err(e) => Err(e),
    }
}

/// The project whose rules apply; none where the rules for all projects do.
pub fn project_scope(project_id: Option<&str>) -> (r: Option<String>)
    ensures
        r.deep_view() == (match project_id {
            Some(id) => if text::trimmed(id@).len() > 0 {
                Some(text::trimmed(id@))
            } else {
                None
            },
            None => None,
        }),
{
    match project_id {
        Some(id) => {
            let chars = text::chars_of(id);
            let plain = text::trim(chars.as_slice());
            if plain.len() > 0 {
                Some(text::string_of(plain))
            } else {
                None
            }
        },
        None => None,
    }
}

// ---------------------------------------------------------------------
// The size of a directory
// ---------------------------------------------------------------------

/// An entry of a directory; its size where that could be read.
pub struct SizeEntry {
    pub path: String,
    pub is_dir: bool,
    pub is_file: bool,
    pub size: Option<i64>,
}

/// The mathematical form of an entry.
pub struct SizeModel {
    pub path: Seq<char>,
    pub is_dir: bool,
    pub is_file: bool,
    pub size: Option<i64>,
}

impl DeepView for SizeEntry {
    type V = SizeModel;

    open spec fn deep_view(&self) -> SizeModel {
        SizeModel {
            path: self.path@,
            is_dir: self.is_dir,
            is_file: self.is_file,
            size: self.size,
        }
    }
}

/// Adds up the sizes of the files below a directory.
pub struct PathSize {
    pub pending: Vec<String>,
    pub total: i64,
}

/// The mathematical form of a sum.
pub struct PathSizeModel {
    pub pending: Seq<Seq<char>>,
    pub total: i64,
}

impl DeepView for PathSize {
    type V = PathSizeModel;

    open spec fn deep_view(&self) -> PathSizeModel {
        PathSizeModel { pending: self.pending.deep_view(), total: self.total }
    }
}

/// The sum of two numbers, or the bound that it passes.
pub open spec fn bounded_sum(a: i64, b: i64) -> i64 {
    if a + b > i64::MAX {
        i64::MAX
    } else if a + b < i64::MIN {
        i64::MIN
    } else {
        (a + b) as i64
    }
}

/// A sum after one more entry: directories are read later, the sizes of
/// files are added. What is neither does not count.
pub open spec fn counted(s: PathSizeModel, e: SizeModel) -> PathSizeModel {
    if e.is_dir {
        PathSizeModel { pending: s.pending.push(e.path), ..s }
    } else if e.is_file && e.size is Some {
        PathSizeModel { total: bounded_sum(s.total, e.size->Some_0), ..s }
    } else {
        s
    }
}

/// A sum after the first entries of a directory.
pub open spec fn counted_all(s: PathSizeModel, entries: Seq<SizeModel>, n: int) -> PathSizeModel
    decreases n,
{
    if n <= 0 {
        s
    } else {
        counted(counted_all(s, entries, n - 1), entries[n - 1])
    }
}

impl PathSize {
    /// The sum for a directory that has not been read yet.
    pub fn start(path: &str) -> (s: PathSize)
        ensures
            s.deep_view() == (PathSizeModel { pending: seq![path@], total: 0 }),
    {
        let mut pending: Vec<String> = Vec::new();
        pending.push(path.to_string());
        let s = PathSize { pending, total: 0 };
        proof {
            assert(s.pending.deep_view() =~= seq![path@]);
        }
        s
    }

    /// The directory to read next: the one that was found last.
    pub fn next_directory(&mut self) -> (r: Option<String>)
        ensures
            final(self).total == old(self).total,
            match r {
                Some(d) => final(self).deep_view().pending.push(d@)
                    == old(self).deep_view().pending,
                None => old(self).deep_view().pending.len() == 0 && final(self).deep_view()
                    == old(self).deep_view(),
            },
    {
        let ghost before = self.pending@;
        let ghost shown = self.pending.deep_view();
        let r = self.pending.pop();
        proof {
            if before.len() > 0 {
                assert(self.pending@ =~= before.drop_last());
                assert(shown =~= self.pending.deep_view().push(before.last()@));
            } else {
                assert(self.pending@ =~= before);
            }
        }
        r
    }

    /// Takes the entries of a directory. The sum stops at the largest number
    /// rather than starting anew.
    pub fn get_path_size(&mut self, entries: &Vec<SizeEntry>)
        ensures
            final(self).deep_view() == counted_all(
                old(self).deep_view(),
                entries.deep_view(),
                entries@.len() as int,
            ),
    {
        let ghost start = self.deep_view();
        let ghost all = entries.deep_view();
        let mut i: usize = 0;
        while i < entries.len()
            invariant
                i <= entries@.len(),
                all == entries.deep_view(),
                start == old(self).deep_view(),
                self.deep_view() == counted_all(start, all, i as int),
            decreases entries@.len() - i,
        {
            let e = &entries[i];
            let ghost shown = self.pending.deep_view();
            proof {
                assert(all[i as int] == e.deep_view());
            }
            if e.is_dir {
                let path = e.path.clone();
                self.pending.push(path);
                proof {
                    assert(self.pending.deep_view() =~= shown.push(e.path@));
                }
            } else if e.is_file {
                match e.size {
                    Some(size) => {
                        let sum: i128 = self.total as i128 + size as i128;
                        self.total = if sum > i64::MAX as i128 {
                            i64::MAX
                        } else if sum < i64::MIN as i128 {
                            i64::MIN
                        } else {
                            sum as i64
                        };
                    },
                    None => {},
                }
            }
            i += 1;
        }
    }
}

} // verus!
