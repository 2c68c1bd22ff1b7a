//! Files that a theme uses: background images and drawings of the cursor.

use vstd::prelude::*;
use vstd::slice::slice_subrange;
use crate::checkpoint::paths;
use crate::checkpoint::paths::{parts_of, relative_to};
use crate::error;
use crate::error::{ErrorModel, StorageError};
use crate::git::discover::is_one_of;
use crate::text;

verus! {

/// The kinds of files.
#[derive(Clone, Copy, PartialEq, Eq, Structural, Debug)]
pub enum ThemeFile {
    Background,
    StreamCursor,
}

/// The name of the directory that holds the files of a kind.
pub open spec fn directory_of(kind: ThemeFile) -> Seq<char> {
    match kind {
        ThemeFile::Background => "backgrounds"@,
        ThemeFile::StreamCursor => "stream-cursors"@,
    }
}

/// What the names of the files of a kind begin with.
pub open spec fn prefix_of(kind: ThemeFile) -> Seq<char> {
    match kind {
        ThemeFile::Background => "bg"@,
        ThemeFile::StreamCursor => "cursor"@,
    }
}

/// What a kind of file is called in messages.
pub open spec fn title_of(kind: ThemeFile) -> Seq<char> {
    match kind {
        ThemeFile::Background => "Background image"@,
        ThemeFile::StreamCursor => "Stream cursor SVG"@,
    }
}

/// The extensions that the files of a kind may have. Others get the first.
pub open spec fn extensions_of(kind: ThemeFile) -> Seq<Seq<char>> {
    match kind {
        ThemeFile::Background => seq![
            "png"@,
            "jpg"@,
            "jpeg"@,
            "gif"@,
            "webp"@,
            "bmp"@,
            "svg"@,
        ],
        ThemeFile::StreamCursor => seq!["svg"@],
    }
}

impl ThemeFile {
    /// The name of the directory that holds the files of a kind.
    pub fn directory(self) -> (out: String)
        ensures
            out@ == directory_of(self),
    {
        match self {
            ThemeFile::Background => "backgrounds".to_string(),
            ThemeFile::StreamCursor => "stream-cursors".to_string(),
        }
    }

    fn prefix(self) -> (out: String)
        ensures
            out@ == prefix_of(self),
    {
        match self {
            ThemeFile::Background => "bg".to_string(),
            ThemeFile::StreamCursor => "cursor".to_string(),
        }
    }

    fn title(self) -> (out: String)
        ensures
            out@ == title_of(self),
    {
        match self {
            ThemeFile::Background => "Background image".to_string(),
            ThemeFile::StreamCursor => "Stream cursor SVG".to_string(),
        }
    }

    fn allows(self, extension: &[char]) -> (r: bool)
        ensures
            r == extensions_of(self).contains(extension@),
    {
        match self {
            ThemeFile::Background => {
                let list: &[&str] = &["png", "jpg", "jpeg", "gif", "webp", "bmp", "svg"];
                proof {
                    assert(Seq::new(list@.len(), |i: int| list@[i]@) =~= extensions_of(self));
                }
                is_one_of(extension, list)
            },
            ThemeFile::StreamCursor => {
                let list: &[&str] = &["svg"];
                proof {
                    assert(Seq::new(list@.len(), |i: int| list@[i]@) =~= extensions_of(self));
                }
                is_one_of(extension, list)
            },
        }
    }

    fn usual_extension(self) -> (out: String)
        ensures
            out@ == extensions_of(self)[0],
    {
        match self {
            ThemeFile::Background => "png".to_string(),
            ThemeFile::StreamCursor => "svg".to_string(),
        }
    }
}

/// The position of the last dot.
pub open spec fn last_dot(s: Seq<char>) -> Option<int>
    decreases s.len(),
{
    if s.len() == 0 {
        None
    } else if s.last() == '.' {
        Some(s.len() - 1)
    } else {
        last_dot(s.drop_last())
    }
}

/// What stands behind the last dot of a file name. A name that begins with
/// its only dot has no extension.
pub open spec fn name_extension(name: Seq<char>) -> Option<Seq<char>> {
    match last_dot(name) {
        Some(i) => if i > 0 && name != ".."@ {
            Some(name.skip(i + 1))
        } else {
            None
        },
        None => None,
    }
}

/// The extension of the last part of a path.
pub open spec fn path_extension(path: Seq<char>) -> Option<Seq<char>> {
    let parts = paths::path_parts(path);
    if parts.len() == 0 {
        None
    } else {
        name_extension(parts.last())
    }
}

/// What stands behind the last dot of a file name.
fn extension_in(name: &[char]) -> (r: Option<Vec<char>>)
    ensures
        match r {
            Some(e) => name_extension(name@) == Some(e@),
            None => name_extension(name@) is None,
        },
{
    if text::equals(name, "..") {
        return None;
    }
    let total: usize = name.len();
    let mut i: usize = total;
    proof {
        assert(name@.take(i as int) =~= name@);
    }
    while i > 0
        invariant
            i <= total == name@.len(),
            name@ != ".."@,
            last_dot(name@) == last_dot(name@.take(i as int)),
        decreases i,
    {
        proof {
            assert(name@.take(i as int).last() == name@[i - 1]);
            assert(name@.take(i as int).drop_last() =~= name@.take(i - 1));
        }
        if name[i - 1] == '.' {
            if i == 1 {
                return None;
            }
            let tail = slice_subrange(name, i, total);
            proof {
                assert(tail@ =~= name@.skip(i as int));
            }
            return Some(text::copy_of(tail));
        }
        i -= 1;
    }
    None
}

/// The extension that the copy of a file gets.
pub open spec fn copy_extension(kind: ThemeFile, source: Seq<char>) -> Seq<char> {
    match path_extension(source) {
        Some(e) => if extensions_of(kind).contains(text::lowercase(e)) {
            text::lowercase(e)
        } else {
            extensions_of(kind)[0]
        },
        None => extensions_of(kind)[0],
    }
}

/// The extension of a file in lower case, where files of the kind may have
/// it.
fn allowed_extension(kind: ThemeFile, source: &str) -> (r: Option<String>)
    ensures
        match (r, path_extension(source@)) {
            (Some(out), Some(e)) => out@ == text::lowercase(e) && extensions_of(kind).contains(
                out@,
            ),
            (Some(_), None) => false,
            (None, Some(e)) => !extensions_of(kind).contains(text::lowercase(e)),
            (None, None) => true,
        },
{
    let parts = parts_of(source);
    let n: usize = parts.len();
    if n == 0 {
        return None;
    }
    proof {
        assert(text::texts(parts@).last() == parts@[n - 1]@);
    }
    match extension_in(parts[n - 1].as_slice()) {
        Some(e) => {
            let whole = text::string_of(e.as_slice());
            let lower = text::to_lowercase(whole.as_str());
            let chars = text::chars_of(lower.as_str());
            if kind.allows(chars.as_slice()) {
                Some(lower)
            } else {
                None
            }
        },
        None => None,
    }
}

/// The extension that the copy of a file gets: its own in lower case where
/// files of the kind may have it, and else the usual one.
pub fn extension_for(kind: ThemeFile, source: &str) -> (out: String)
    ensures
        out@ == copy_extension(kind, source@),
{
    match allowed_extension(kind, source) {
        Some(e) => e,
        None => kind.usual_extension(),
    }
}

/// Whether a file may be copied.
fn is_of_kind(kind: ThemeFile, source: &str) -> (r: bool)
    ensures
        r == may_copy(kind, source@),
{
    match kind {
        ThemeFile::StreamCursor => allowed_extension(kind, source).is_some(),
        ThemeFile::Background => true,
    }
}

/// The name of the copy of a file.
pub open spec fn copy_name(
    kind: ThemeFile,
    timestamp: Seq<char>,
    suffix: Seq<char>,
    extension: Seq<char>,
) -> Seq<char> {
    prefix_of(kind) + "-"@ + timestamp + "-"@ + suffix + "."@ + extension
}

/// The name of the copy of a file that was made at a time.
pub fn file_name(kind: ThemeFile, timestamp: &str, suffix: &str, extension: &str) -> (out: String)
    ensures
        out@ == copy_name(kind, timestamp@, suffix@, extension@),
{
    let mut out = kind.prefix();
    out.append("-");
    out.append(timestamp);
    out.append("-");
    out.append(suffix);
    out.append(".");
    out.append(extension);
    out
}

/// Whether a text may be a time: at least four digits of the year and two
/// each of month, day, hour, minute and second. A sign goes before a year of
/// more digits.
pub open spec fn is_time(s: Seq<char>) -> bool {
    s.len() >= 14 && forall|i: int|
        0 <= i < s.len() ==> text::digit(#[trigger] s[i]) || (i == 0 && s[i] == '+' && s.len() > 15)
}

/// Whether a text is made of 32 lower-case hexadecimal digits.
pub open spec fn is_hex32(s: Seq<char>) -> bool {
    s.len() == 32 && forall|i: int|
        0 <= i < s.len() ==> ('0' <= #[trigger] s[i] <= '9' || 'a' <= s[i] <= 'f')
}

/// `chrono::Utc::now` and `chrono::DateTime::format`: the present time as
/// year, month, day, hour, minute and second. It has 14 digits up to the
/// year 9999, and a sign before more digits after it; which they are is for
/// the clock to say.
#[verifier::external_body]
fn timestamp_now() -> (out: String)
    ensures
        is_time(out@),
{
    chrono::Utc::now().format("%Y%m%d%H%M%S").to_string()
}

/// `uuid::Uuid::new_v4` and `uuid::Uuid::simple`: a random identifier in
/// 32 lower-case hexadecimal digits; which they are is left to chance.
#[verifier::external_body]
fn random_suffix() -> (out: String)
    ensures
        is_hex32(out@),
{
    uuid::Uuid::new_v4().simple().to_string()
}

/// Whether a name is one for the copy of a file, whatever the time and the
/// random part.
pub open spec fn names_copy(kind: ThemeFile, source: Seq<char>, name: Seq<char>) -> bool {
    exists|timestamp: Seq<char>, suffix: Seq<char>|
        is_time(timestamp) && is_hex32(suffix) && name == #[trigger] copy_name(
            kind,
            timestamp,
            suffix,
            copy_extension(kind, source),
        )
}

/// A name for the copy of a file that is made now.
pub fn new_file_name(kind: ThemeFile, source: &str) -> (out: String)
    ensures
        names_copy(kind, source@, out@),
{
    let timestamp = timestamp_now();
    let suffix = random_suffix();
    let extension = extension_for(kind, source);
    file_name(kind, timestamp.as_str(), suffix.as_str(), extension.as_str())
}

/// Whether a file may be copied: a drawing of the cursor must have the
/// extension of one, in whatever case.
pub open spec fn may_copy(kind: ThemeFile, source: Seq<char>) -> bool {
    kind == ThemeFile::StreamCursor ==> (path_extension(source) matches Some(e)
        && extensions_of(kind).contains(text::lowercase(e)))
}

/// Which file is copied.
pub open spec fn source_of(kind: ThemeFile, source: Seq<char>, is_there: bool) -> Result<
    Seq<char>,
    ErrorModel,
> {
    let plain = text::trimmed(source);
    if plain.len() == 0 {
        Err(error::invalid(title_of(kind) + " source path is required"@))
    } else if !is_there {
        Err(error::failure(title_of(kind) + " source file does not exist: "@ + plain))
    } else if !may_copy(kind, plain) {
        Err(error::invalid(title_of(kind) + " source file is not an SVG file: "@ + plain))
    } else {
        Ok(plain)
    }
}

/// Which file is copied; a path is required, a file must be there, and it
/// must be of the kind.
pub fn check_source(kind: ThemeFile, source_path: &str, is_there: bool) -> (r: Result<
    String,
    StorageError,
>)
    ensures
        error::result_view(r) == source_of(kind, source_path@, is_there),
{
    let chars = text::chars_of(source_path);
    let plain = text::trim(chars.as_slice());
    let mut reason = kind.title();
    if plain.len() == 0 {
        reason.append(" source path is required");
        return Err(StorageError::invalid_arg(reason.as_str()));
    }
    let source = text::string_of(plain);
    if !is_there {
        reason.append(" source file does not exist: ");
        reason.append(source.as_str());
        return Err(StorageError::from_reason(reason.as_str()));
    }
    if !is_of_kind(kind, source.as_str()) {
        reason.append(" source file is not an SVG file: ");
        reason.append(source.as_str());
        return Err(StorageError::invalid_arg(reason.as_str()));
    }
    Ok(source)
}

/// Copies a background image: which file is copied, and under which name.
pub fn save_theme_background_image(source_path: &str, is_there: bool) -> (r: Result<
    (String, String),
    StorageError,
>)
    ensures
        match (r, source_of(ThemeFile::Background, source_path@, is_there)) {
            (Ok((source, name)), Ok(plain)) => source@ == plain && names_copy(
                ThemeFile::Background,
                plain,
                name@,
            ),
            (Err(e), Err(x)) => e.deep_view() == x,
            _ => false,
        },
{
    match check_source(ThemeFile::Background, source_path, is_there) {
        Ok(source) => {
            let name = new_file_name(ThemeFile::Background, source.as_str());
            Ok((source, name))
        },
        Err(e) => Err(e),
    }
}

/// Copies a drawing of the cursor: which file is copied, and under which
/// name.
pub fn save_theme_stream_cursor_svg(source_path: &str, is_there: bool) -> (r: Result<
    (String, String),
    StorageError,
>)
    ensures
        match (r, source_of(ThemeFile::StreamCursor, source_path@, is_there)) {
            (Ok((source, name)), Ok(plain)) => source@ == plain && names_copy(
                ThemeFile::StreamCursor,
                plain,
                name@,
            ),
            (Err(e), Err(x)) => e.deep_view() == x,
            _ => false,
        },
{
    match check_source(ThemeFile::StreamCursor, source_path, is_there) {
        Ok(source) => {
            let name = new_file_name(ThemeFile::StreamCursor, source.as_str());
            Ok((source, name))
        },
        Err(e) => Err(e),
    }
}

/// Whether a file is deleted. An empty path and a file that is gone are no
/// errors; a file outside the directory of its kind is never deleted.
pub open spec fn removal(
    kind: ThemeFile,
    path: Seq<char>,
    is_there: bool,
    target: Seq<char>,
    directory: Seq<char>,
) -> Result<bool, ErrorModel> {
    if text::trimmed(path).len() == 0 || !is_there {
        Ok(false)
    } else if paths::path_below(target, directory) is Some {
        Ok(true)
    } else {
        Err(
            error::failure(
                "Refused to delete a file outside the "@ + directory_of(kind) + " directory"@,
            ),
        )
    }
}

/// Whether a file is deleted. `target` and `directory` are the canonical
/// paths of the file and of the directory of its kind.
fn check_removal(
    kind: ThemeFile,
    path: &str,
    is_there: bool,
    target: &str,
    directory: &str,
) -> (r: Result<bool, StorageError>)
    ensures
        error::result_view(r) == removal(kind, path@, is_there, target@, directory@),
{
    let chars = text::chars_of(path);
    if text::trim(chars.as_slice()).len() == 0 || !is_there {
        return Ok(false);
    }
    if relative_to(target, directory).is_some() {
        return Ok(true);
    }
    let mut reason = "Refused to delete a file outside the ".to_string();
    let name = kind.directory();
    reason.append(name.as_str());
    reason.append(" directory");
    Err(StorageError::from_reason(reason.as_str()))
}

/// Whether a background image is deleted.
pub fn delete_theme_background_image(path: &str, is_there: bool, target: &str, directory: &str) -> (r:
    Result<bool, StorageError>)
    ensures
        error::result_view(r) == removal(
            ThemeFile::Background,
            path@,
            is_there,
            target@,
            directory@,
        ),
{
    check_removal(ThemeFile::Background, path, is_there, target, directory)
}

/// Whether a drawing of the cursor is deleted.
pub fn delete_theme_stream_cursor_svg(
    path: &str,
    is_there: bool,
    target: &str,
    directory: &str,
) -> (r: Result<bool, StorageError>)
    ensures
        error::result_view(r) == removal(
            ThemeFile::StreamCursor,
            path@,
            is_there,
            target@,
            directory@,
        ),
{
    check_removal(ThemeFile::StreamCursor, path, is_there, target, directory)
}

/// Only files below the directory of their kind are ever deleted.
pub proof fn law_other_files_are_kept(
    kind: ThemeFile,
    path: Seq<char>,
    is_there: bool,
    target: Seq<char>,
    directory: Seq<char>,
)
    requires
        removal(kind, path, is_there, target, directory) == Ok::<bool, ErrorModel>(true),
    ensures
        paths::path_components(directory).len() <= paths::path_components(target).len(),
        paths::path_components(target).take(paths::path_components(directory).len() as int)
            == paths::path_components(directory),
{
}

/// The copy of a file always has an extension that files of its kind may
/// have.
pub proof fn law_copy_extension_is_allowed(kind: ThemeFile, source: Seq<char>)
    ensures
        extensions_of(kind).contains(copy_extension(kind, source)),
{
    assert(extensions_of(kind)[0] == extensions_of(kind)[0]);
    assert(extensions_of(kind).contains(extensions_of(kind)[0]));
}

} // verus!
