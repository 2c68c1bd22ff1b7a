//! The content of files: its identifier, and how it differs from earlier
//! content.

use vstd::prelude::*;
use crate::checkpoint::manifest::{OriginalState, StateModel};
use crate::error;
use crate::error::{ErrorModel, StorageError};
use crate::text;

verus! {

/// The identifier under which content is kept: its BLAKE3 hash in
/// hexadecimal digits.
pub uninterp spec fn content_id(content: Seq<u8>) -> Seq<char>;

/// `blake3::hash` and `blake3::Hash::to_hex`: the hash of the bytes in
/// lower-case hexadecimal digits. It depends on the bytes alone and has 64
/// digits; which they are is not stated.
#[verifier::external_body]
fn hash_hex(content: &[u8]) -> (out: String)
    ensures
        out@ == content_id(content@),
        out@.len() == 64,
        forall|i: int|
            0 <= i < out@.len() ==> ('0' <= #[trigger] out@[i] <= '9' || 'a' <= out@[i] <= 'f'),
{
    blake3::hash(content).to_hex().to_string()
}

/// The identifier under which content is kept.
pub fn object_id(content: &[u8]) -> (out: String)
    ensures
        out@ == content_id(content@),
        out@.len() == 64,
{
    hash_hex(content)
}

/// `std::str::from_utf8`: the text that the bytes encode in UTF-8, where
/// they do.
#[verifier::external_body]
fn from_utf8(bytes: &[u8]) -> (r: Option<String>)
    ensures
        r is Some <==> vstd::utf8::valid_utf8(bytes@),
        r is Some ==> r->Some_0@ == vstd::utf8::decode_utf8(bytes@),
{
    std::str::from_utf8(bytes).ok().map(|s| s.to_string())
}

/// The unified diff that leads from one text to another, line by line, with
/// three lines of context and the given names in its header.
pub uninterp spec fn diff_text(
    before: Seq<char>,
    after: Seq<char>,
    before_name: Seq<char>,
    after_name: Seq<char>,
) -> Seq<char>;

/// `similar::TextDiff::from_lines` and `similar::udiff::UnifiedDiff`: the
/// unified diff of two texts. It depends on the texts and the names alone,
/// and is empty where the texts are equal; which lines it groups is not
/// stated.
#[verifier::external_body]
fn unified_diff(before: &str, after: &str, before_name: &str, after_name: &str) -> (out: String)
    ensures
        out@ == diff_text(before@, after@, before_name@, after_name@),
        before@ == after@ ==> out@.len() == 0,
{
    similar::TextDiff::from_lines(before, after)
        .unified_diff()
        .context_radius(3)
        .header(before_name, after_name)
        .to_string()
}

/// A text with the line ends of Windows made plain.
pub open spec fn plain_lines(s: Seq<char>) -> Seq<char>
    decreases s.len(),
{
    if s.len() == 0 {
        Seq::empty()
    } else if s.len() >= 2 && s[0] == '\r' && s[1] == '\n' {
        seq!['\n'] + plain_lines(s.skip(2))
    } else {
        seq![s[0]] + plain_lines(s.skip(1))
    }
}

/// A text with the line ends of Windows made plain.
pub fn normalize_lines(s: &str) -> (out: String)
    ensures
        out@ == plain_lines(s@),
{
    let chars = text::chars_of(s);
    let total: usize = chars.len();
    let mut out: Vec<char> = Vec::new();
    let mut i: usize = 0;
    proof {
        assert(chars@.skip(0) =~= s@);
        assert(out@ + plain_lines(chars@.skip(0)) =~= plain_lines(s@));
    }
    while i < total
        invariant
            i <= total == chars@.len(),
            out@ + plain_lines(chars@.skip(i as int)) == plain_lines(s@),
        decreases total - i,
    {
        let ghost rest = chars@.skip(i as int);
        let ghost before = out@;
        if total - i >= 2 && chars[i] == '\r' && chars[i + 1] == '\n' {
            out.push('\n');
            proof {
                assert(rest.skip(2) =~= chars@.skip(i + 2));
                assert(before + (seq!['\n'] + plain_lines(rest.skip(2))) =~= out@ + plain_lines(
                    chars@.skip(i + 2),
                ));
            }
            i += 2;
        } else {
            out.push(chars[i]);
            proof {
                assert(rest.skip(1) =~= chars@.skip(i + 1));
                assert(before + (seq![rest[0]] + plain_lines(rest.skip(1))) =~= out@ + plain_lines(
                    chars@.skip(i + 1),
                ));
            }
            i += 1;
        }
    }
    proof {
        assert(plain_lines(chars@.skip(i as int)) =~= Seq::empty());
        assert(out@ =~= out@ + plain_lines(chars@.skip(i as int)));
    }
    text::string_of(out.as_slice())
}

/// Whether content cannot be shown as text.
pub open spec fn is_binary(content: Seq<u8>) -> bool {
    !vstd::utf8::valid_utf8(content) || content.contains(0u8)
}

/// Whether bytes hold a zero.
fn holds_zero(content: &[u8]) -> (r: bool)
    ensures
        r == content@.contains(0u8),
{
    let mut i: usize = 0;
    while i < content.len()
        invariant
            i <= content@.len(),
            forall|j: int| 0 <= j < i ==> content@[j] != 0u8,
        decreases content@.len() - i,
    {
        if content[i] == 0 {
            proof {
                assert(content@[i as int] == 0u8);
            }
            return true;
        }
        i += 1;
    }
    false
}

/// The content of a file, or none where there is no file.
pub open spec fn or_nothing(content: Option<Seq<u8>>) -> Seq<u8> {
    match content {
        Some(bytes) => bytes,
        None => Seq::empty(),
    }
}

/// The name that a diff gives to one of its sides.
pub open spec fn side_name(letter: Seq<char>, content: Option<Seq<u8>>, relative: Seq<char>) -> Seq<char> {
    match content {
        Some(_) => letter + relative,
        None => "/dev/null"@,
    }
}

/// The diff of a file, and whether its content cannot be shown.
pub open spec fn file_diff(
    relative: Seq<char>,
    original: Option<Seq<u8>>,
    current: Option<Seq<u8>>,
) -> (Seq<char>, bool) {
    if is_binary(or_nothing(original)) || is_binary(or_nothing(current)) {
        (Seq::empty(), true)
    } else {
        (
            diff_text(
                plain_lines(vstd::utf8::decode_utf8(or_nothing(original))),
                plain_lines(vstd::utf8::decode_utf8(or_nothing(current))),
                side_name("a/"@, original, relative),
                side_name("b/"@, current, relative),
            ),
            false,
        )
    }
}

/// The view of content that may be missing.
pub open spec fn content_view(content: Option<&Vec<u8>>) -> Option<Seq<u8>> {
    match content {
        Some(bytes) => Some(bytes@),
        None => None,
    }
}

/// The text of content that can be shown.
fn shown_text(content: Option<&Vec<u8>>) -> (r: Option<String>)
    ensures
        r is None <==> is_binary(or_nothing(content_view(content))),
        r is Some ==> r->Some_0@ == plain_lines(
            vstd::utf8::decode_utf8(or_nothing(content_view(content))),
        ),
{
    let nothing: Vec<u8> = Vec::new();
    let bytes: &[u8] = match content {
        Some(bytes) => bytes.as_slice(),
        None => {
            proof {
                assert(nothing@ =~= Seq::empty());
            }
            nothing.as_slice()
        },
    };
    match from_utf8(bytes) {
        Some(s) => {
            if holds_zero(bytes) {
                return None;
            }
            Some(normalize_lines(s.as_str()))
        },
        None => None,
    }
}

/// The name that a diff gives to one of its sides.
fn name_side(letter: &str, content: Option<&Vec<u8>>, relative: &str) -> (out: String)
    ensures
        out@ == side_name(letter@, content_view(content), relative@),
{
    match content {
        Some(_) => {
            let mut out = letter.to_string();
            out.append(relative);
            out
        },
        None => "/dev/null".to_string(),
    }
}

/// Whether both sides can be shown and differ in their line ends at most.
pub open spec fn shows_no_change(original: Option<Seq<u8>>, current: Option<Seq<u8>>) -> bool {
    &&& !is_binary(or_nothing(original))
    &&& !is_binary(or_nothing(current))
    &&& plain_lines(vstd::utf8::decode_utf8(or_nothing(original))) == plain_lines(
        vstd::utf8::decode_utf8(or_nothing(current)),
    )
}

/// The diff of a file, and whether its content cannot be shown. Line ends
/// are compared in their plain form, so that a file that was only saved
/// with other line ends shows no change.
pub fn build_unified_diff(
    relative: &str,
    original: Option<&Vec<u8>>,
    current: Option<&Vec<u8>>,
) -> (r: (String, bool))
    ensures
        (r.0@, r.1) == file_diff(relative@, content_view(original), content_view(current)),
        shows_no_change(content_view(original), content_view(current)) ==> r.0@ == Seq::<
            char,
        >::empty() && !r.1,
{
    let before = shown_text(original);
    let after = shown_text(current);
    match (before, after) {
        (Some(before), Some(after)) => {
            let before_name = name_side("a/", original, relative);
            let after_name = name_side("b/", current, relative);
            let out = unified_diff(
                before.as_str(),
                after.as_str(),
                before_name.as_str(),
                after_name.as_str(),
            );
            (out, false)
        },
        _ => (text::string_of(&[]), true),
    }
}

/// What reading a file gave: there is none; there is something that is no
/// file; the message of an error; or its content.
pub enum FileRead {
    Missing,
    NotRegular,
    Failed(String),
    Content(Vec<u8>),
}

/// The mathematical form of a read.
pub enum ReadModel {
    Missing,
    NotRegular,
    Failed(Seq<char>),
    Content(Seq<u8>),
}

impl DeepView for FileRead {
    type V = ReadModel;

    open spec fn deep_view(&self) -> ReadModel {
        match self {
            FileRead::Missing => ReadModel::Missing,
            FileRead::NotRegular => ReadModel::NotRegular,
            FileRead::Failed(message) => ReadModel::Failed(message@),
            FileRead::Content(bytes) => ReadModel::Content(bytes@),
        }
    }
}

/// The message for a path at which there is something else than a file.
pub open spec fn not_regular(path: Seq<char>) -> Seq<char> {
    "Checkpoint path is not a regular file: "@ + path
}

/// The message for a file that could not be read.
pub open spec fn unreadable(what: Seq<char>, path: Seq<char>, message: Seq<char>) -> Seq<char> {
    what + path + "': "@ + message
}

/// The error for a path at which there is something else than a file.
pub(crate) fn not_a_file(path: &str) -> (e: StorageError)
    ensures
        e.deep_view() == error::failure(not_regular(path@)),
{
    let mut reason = "Checkpoint path is not a regular file: ".to_string();
    reason.append(path);
    StorageError::from_reason(reason.as_str())
}

/// The error for a file that could not be read.
pub(crate) fn cannot_read(what: &str, path: &str, message: &str) -> (e: StorageError)
    ensures
        e.deep_view() == error::failure(unreadable(what@, path@, message@)),
{
    let mut reason = what.to_string();
    reason.append(path);
    reason.append("': ");
    reason.append(message);
    StorageError::from_reason(reason.as_str())
}

/// The state of a file that was read at a path.
pub open spec fn state_of(path: Seq<char>, read: ReadModel) -> Result<StateModel, ErrorModel> {
    match read {
        ReadModel::Missing => Ok(StateModel::Missing),
        ReadModel::NotRegular => Err(error::failure(not_regular(path))),
        ReadModel::Failed(message) => Err(
            error::failure(unreadable("Failed to read checkpoint source '"@, path, message)),
        ),
        ReadModel::Content(bytes) => Ok(StateModel::Object { object_id: content_id(bytes) }),
    }
}

/// The state of a file that was read at a path. The content is to be kept
/// under the identifier of the state.
pub fn current_state(path: &str, read: &FileRead) -> (r: Result<OriginalState, StorageError>)
    ensures
        error::result_view(r) == state_of(path@, read.deep_view()),
{
    match read {
        FileRead::Missing => Ok(OriginalState::Missing),
        FileRead::NotRegular => Err(not_a_file(path)),
        FileRead::Failed(message) => Err(
            cannot_read("Failed to read checkpoint source '", path, message.as_str()),
        ),
        FileRead::Content(bytes) => Ok(
            OriginalState::Object { object_id: object_id(bytes.as_slice()) },
        ),
    }
}

/// The content that a read gave, for showing it.
pub open spec fn content_of(path: Seq<char>, read: ReadModel) -> Result<Option<Seq<u8>>, ErrorModel> {
    match read {
        ReadModel::Missing => Ok(None),
        ReadModel::NotRegular => Err(error::failure(not_regular(path))),
        ReadModel::Failed(message) => Err(
            error::failure(unreadable("Failed to read current checkpoint file '"@, path, message)),
        ),
        ReadModel::Content(bytes) => Ok(Some(bytes)),
    }
}

/// The view of content that was asked for.
pub open spec fn found_view(r: Result<Option<&Vec<u8>>, StorageError>) -> Result<
    Option<Seq<u8>>,
    ErrorModel,
> {
    match r {
        Ok(content) => Ok(content_view(content)),
        Err(e) => Err(e.deep_view()),
    }
}

/// The content that a read gave, for showing it.
pub fn read_current_content<'a>(path: &str, read: &'a FileRead) -> (r: Result<
    Option<&'a Vec<u8>>,
    StorageError,
>)
    ensures
        found_view(r) == content_of(path@, read.deep_view()),
{
    match read {
        FileRead::Missing => Ok(None),
        FileRead::NotRegular => Err(not_a_file(path)),
        FileRead::Failed(message) => Err(
            cannot_read("Failed to read current checkpoint file '", path, message.as_str()),
        ),
        FileRead::Content(bytes) => Ok(Some(bytes)),
    }
}

/// Whether two contents are equal.
pub(crate) fn same_content(a: &[u8], b: &[u8]) -> (r: bool)
    ensures
        r == (a@ == b@),
{
    if a.len() != b.len() {
        return false;
    }
    let mut i: usize = 0;
    while i < a.len()
        invariant
            i <= a@.len() == b@.len(),
            forall|j: int| 0 <= j < i ==> a@[j] == b@[j],
        decreases a@.len() - i,
    {
        if a[i] != b[i] {
            return false;
        }
        i += 1;
    }
    proof {
        assert(a@ =~= b@);
    }
    true
}

} // verus!
