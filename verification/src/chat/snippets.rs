//! Short texts made of messages: titles, previews, search results.

use vstd::prelude::*;
use vstd::slice::slice_subrange;
use crate::chat::rows::{ChatContextMessage, ContextModel};
use crate::rows;
use crate::rows::find_row;
use crate::text;

verus! {

/// The role under which a message is kept; an unknown one counts as the
/// user's.
pub open spec fn role_of(role: Seq<char>) -> Seq<char> {
    let r = text::trimmed(role);
    if r == "assistant"@ || r == "system"@ || r == "developer"@ || r == "tool"@ {
        r
    } else {
        "user"@
    }
}

/// Tells the role under which a message is kept.
pub fn normalize_role(role: &str) -> (out: String)
    ensures
        out@ == role_of(role@),
{
    let chars = text::chars_of(role);
    let r = text::trim(chars.as_slice());
    if text::equals(r, "assistant") || text::equals(r, "system") || text::equals(r, "developer")
        || text::equals(r, "tool") {
        text::string_of(r)
    } else {
        "user".to_string()
    }
}

/// A text cut to a number of characters, with an ellipsis where something
/// was cut off.
pub open spec fn cut(s: Seq<char>, max_chars: int) -> Seq<char> {
    if s.len() > max_chars {
        s.take(max_chars).push('…')
    } else {
        s
    }
}

/// Cuts a text.
fn cut_text(s: &[char], max_chars: usize) -> (out: Vec<char>)
    ensures
        out@ == cut(s@, max_chars as int),
{
    if s.len() > max_chars {
        let mut out = text::copy_of(slice_subrange(s, 0, max_chars));
        proof {
            assert(out@ =~= s@.take(max_chars as int));
        }
        out.push('…');
        out
    } else {
        text::copy_of(s)
    }
}

/// The words of a text with single spaces between them.
pub open spec fn compact(s: Seq<char>) -> Seq<char> {
    text::joined(text::words(s), " "@)
}

/// A text in one line, cut to a number of characters.
pub open spec fn snippet(content: Seq<char>, max_chars: int) -> Seq<char> {
    cut(compact(text::trimmed(content)), max_chars)
}

/// Makes a text of one line.
pub fn create_snippet(content: &str, max_chars: usize) -> (out: String)
    ensures
        out@ == snippet(content@, max_chars as int),
{
    let chars = text::chars_of(content);
    let words = text::words_of(text::trim(chars.as_slice()));
    let line = text::join(&words, " ");
    text::string_of(cut_text(line.as_slice(), max_chars).as_slice())
}

/// A snippet is no longer than asked for, the ellipsis aside.
pub proof fn law_snippet_length(content: Seq<char>, max_chars: int)
    requires
        0 <= max_chars,
    ensures
        snippet(content, max_chars).len() <= max_chars + 1,
        snippet(content, max_chars).len() == max_chars + 1 ==> snippet(content, max_chars).last()
            == '…',
{
}

/// Whether a text is one line of words with single spaces between them.
pub open spec fn is_line(s: Seq<char>) -> bool {
    s.len() > 0 ==> {
        &&& !text::white(s[0])
        &&& !text::white(s.last())
        &&& forall|i: int|
            0 <= i < s.len() - 1 && text::white(#[trigger] s[i]) ==> s[i] == ' ' && !text::white(
                s[i + 1],
            )
    }
}

proof fn lemma_joined_first(first: Seq<char>, rest: Seq<Seq<char>>, sep: Seq<char>)
    requires
        rest.len() > 0,
    ensures
        text::joined(seq![first] + rest, sep) == first + sep + text::joined(rest, sep),
    decreases rest.len(),
{
    let all = seq![first] + rest;
    assert(all.drop_last() =~= seq![first] + rest.drop_last());
    assert(all.last() == rest.last());
    if rest.len() == 1 {
        assert(all.drop_last() =~= seq![first]);
        assert(text::joined(seq![first], sep) == first);
        assert(text::joined(rest, sep) == rest[0]);
    } else {
        lemma_joined_first(first, rest.drop_last(), sep);
        let front = text::joined(rest.drop_last(), sep);
        assert((first + sep + front) + sep + rest.last() =~= first + sep + (front + sep
            + rest.last()));
    }
}

/// A line of words with single spaces between them stays as it is.
pub proof fn lemma_line_stays(s: Seq<char>)
    requires
        is_line(s),
    ensures
        compact(s) == s,
        s.len() > 0 ==> text::words(s).len() > 0,
    decreases s.len(),
{
    reveal_strlit(" ");
    if s.len() > 0 {
        text::lemma_word_len(s);
        let w = text::word_len(s) as int;
        let first = s.take(w);
        let rest = s.skip(w);
        assert(text::words(s) == seq![first] + text::words(rest));
        if w == s.len() {
            assert(rest =~= Seq::<char>::empty());
            assert(text::words(rest) =~= Seq::<Seq<char>>::empty());
            assert(first =~= s);
            assert(text::words(s) =~= seq![s]);
        } else {
            assert(text::white(s[w]));
            assert(w < s.len() - 1);
            let tail = s.skip(w + 1);
            assert(rest.skip(1) =~= tail);
            assert(tail[0] == s[w + 1]);
            assert(text::trimmed_start(tail) == tail);
            assert(text::trimmed_start(rest) == tail);
            text::lemma_word_len(tail);
            assert(text::words(rest) == text::words(tail));
            assert forall|i: int|
                0 <= i < tail.len() - 1 && text::white(#[trigger] tail[i]) implies tail[i] == ' '
                && !text::white(tail[i + 1]) by {
                assert(s[w + 1 + i] == tail[i]);
                assert(s[w + 1 + i + 1] == tail[i + 1]);
            }
            lemma_line_stays(tail);
            lemma_joined_first(first, text::words(tail), " "@);
            assert(first + " "@ + tail =~= s);
        }
    } else {
        assert(text::words(s) =~= Seq::<Seq<char>>::empty());
        assert(compact(s) =~= s);
    }
}

spec fn is_word(s: Seq<char>) -> bool {
    s.len() > 0 && forall|i: int| 0 <= i < s.len() ==> !text::white(#[trigger] s[i])
}

proof fn lemma_words(s: Seq<char>)
    ensures
        forall|i: int| 0 <= i < text::words(s).len() ==> is_word(#[trigger] text::words(s)[i]),
    decreases s.len(),
{
    let t = text::trimmed_start(s);
    text::lemma_trimmed_start(s);
    text::lemma_word_len(t);
    if 0 < t.len() <= s.len() && 0 < text::word_len(t) <= t.len() {
        let w = text::word_len(t) as int;
        lemma_words(t.skip(w));
        let rest = text::words(t.skip(w));
        let all = text::words(s);
        assert(all == seq![t.take(w)] + rest);
        assert forall|i: int| 0 <= i < all.len() implies is_word(#[trigger] all[i]) by {
            if i > 0 {
                assert(all[i] == rest[i - 1]);
            } else {
                assert(all[0] == t.take(w));
                assert forall|j: int| 0 <= j < w implies !text::white(
                    #[trigger] t.take(w)[j],
                ) by {
                    assert(!text::white(t[j]));
                }
            }
        }
    }
}

proof fn lemma_joined_is_line(parts: Seq<Seq<char>>)
    requires
        forall|i: int| 0 <= i < parts.len() ==> is_word(#[trigger] parts[i]),
    ensures
        is_line(text::joined(parts, " "@)),
        parts.len() > 0 ==> text::joined(parts, " "@).len() > 0,
    decreases parts.len(),
{
    reveal_strlit(" ");
    if parts.len() == 1 {
        let s = parts[0];
        assert(is_word(parts[0]));
        assert(!text::white(s[0]));
        assert(!text::white(s[s.len() - 1]));
    } else if parts.len() > 1 {
        let front = parts.drop_last();
        assert forall|i: int| 0 <= i < front.len() implies is_word(#[trigger] front[i]) by {
            assert(front[i] == parts[i]);
        }
        lemma_joined_is_line(front);
        let a = text::joined(front, " "@);
        let b = parts.last();
        assert(is_word(parts[parts.len() - 1]));
        let s = a + " "@ + b;
        assert(!text::white(b[0]));
        assert(s[0] == a[0]);
        assert(s.last() == b[b.len() - 1]);
        assert forall|i: int|
            0 <= i < s.len() - 1 && text::white(#[trigger] s[i]) implies s[i] == ' '
            && !text::white(s[i + 1]) by {
            if i < a.len() {
                assert(s[i] == a[i]);
                if i == a.len() - 1 {
                    assert(a[i] == a.last());
                } else {
                    assert(s[i + 1] == a[i + 1]);
                }
            } else if i == a.len() {
                assert(s[i + 1] == b[0]);
            } else {
                assert(s[i] == b[i - a.len() - 1]);
            }
        }
    }
}

/// A snippet is a line, and a snippet of it is the same.
pub proof fn law_snippet_stays(content: Seq<char>, max_chars: int)
    requires
        0 <= max_chars,
    ensures
        is_line(snippet(content, max_chars)),
        snippet(snippet(content, max_chars), max_chars) == snippet(content, max_chars),
{
    let line = compact(text::trimmed(content));
    lemma_words(text::trimmed(content));
    lemma_joined_is_line(text::words(text::trimmed(content)));
    let s = cut(line, max_chars);
    assert(is_line(s)) by {
        if line.len() > max_chars {
            assert(!text::white('…'));
            assert forall|i: int|
                0 <= i < s.len() - 1 && text::white(#[trigger] s[i]) implies s[i] == ' '
                && !text::white(s[i + 1]) by {
                assert(s[i] == line[i]);
                if i + 1 < max_chars {
                    assert(s[i + 1] == line[i + 1]);
                }
                if i == line.len() - 1 {
                    assert(line[i] == line.last());
                }
            }
        }
    }
    assert(text::trimmed(s) == s);
    lemma_line_stays(s);
    assert(cut(s, max_chars) =~= s);
}

// ---------------------------------------------------------------------
// Titles
// ---------------------------------------------------------------------

/// Whether a message has content.
pub open spec fn has_content() -> spec_fn(ContextModel) -> bool {
    |m: ContextModel| text::trimmed(m.content).len() > 0
}

/// Whether a message is one of the user and has content.
pub open spec fn has_user_content() -> spec_fn(ContextModel) -> bool {
    |m: ContextModel| role_of(m.role) == "user"@ && text::trimmed(m.content).len() > 0
}

/// The message that gives a conversation its title: the first one of the
/// user with content, or else the first one with content.
pub open spec fn title_source(messages: Seq<ContextModel>) -> Option<ContextModel> {
    match rows::first_row(messages, has_user_content()) {
        Some(m) => Some(m),
        None => rows::first_row(messages, has_content()),
    }
}

/// The title made of a text; without one, the title of a new conversation.
pub open spec fn title_of(source: Option<Seq<char>>) -> Seq<char> {
    match source {
        Some(s) => snippet(s, 80),
        None => snippet("新对话"@, 80),
    }
}

/// Finds the message that gives a conversation its title.
pub fn find_title_source<'a>(messages: &'a Vec<ChatContextMessage>) -> (r: Option<
    &'a ChatContextMessage,
>)
    ensures
        match r {
            Some(m) => title_source(messages.deep_view()) == Some(m.deep_view()),
            None => title_source(messages.deep_view()) is None,
        },
{
    let users = |m: &ChatContextMessage| -> (b: bool)
        ensures
            b == has_user_content()(m.deep_view()),
        {
            let content = text::chars_of(m.content.as_str());
            let role = normalize_role(m.role.as_str());
            text::equals(text::chars_of(role.as_str()).as_slice(), "user") && text::trim(
                content.as_slice(),
            ).len() > 0
        };
    let any = |m: &ChatContextMessage| -> (b: bool)
        ensures
            b == has_content()(m.deep_view()),
        {
            let content = text::chars_of(m.content.as_str());
            text::trim(content.as_slice()).len() > 0
        };
    match find_row(messages, users, Ghost(has_user_content())) {
        Some(m) => Some(m),
        None => find_row(messages, any, Ghost(has_content())),
    }
}

/// Makes a title. `source` is the content of the message that gives the
/// title, with the tags in it written out.
pub fn create_title(source: &Option<String>) -> (out: String)
    ensures
        out@ == title_of(source.deep_view()),
{
    match source {
        Some(s) => create_snippet(s.as_str(), 80),
        None => create_snippet("新对话", 80),
    }
}

// ---------------------------------------------------------------------
// Search results
// ---------------------------------------------------------------------

/// How many characters a search result shows.
pub const SEARCH_SNIPPET_CHARS: usize = 120;

/// The position at which a search result begins: half of the space that the
/// query leaves before the match. The match is searched in the lower-case
/// form, and its byte position there is taken as a number of characters.
pub open spec fn search_start(
    query: Seq<char>,
    content_lower: Seq<char>,
    query_lower: Seq<char>,
) -> int {
    let found = match text::find_byte(content_lower, query_lower) {
        Some(b) => b,
        None => 0,
    };
    let half = if query.len() < 120 {
        (120 - query.len()) / 2
    } else {
        0
    };
    if found > half {
        found - half
    } else {
        0
    }
}

/// What a search result shows of a content. A beginning behind the end of
/// the content shows it from the front.
pub open spec fn search_snippet(
    content: Seq<char>,
    query: Seq<char>,
    content_lower: Seq<char>,
    query_lower: Seq<char>,
) -> Seq<char> {
    let start = search_start(query, content_lower, query_lower);
    let shown = cut(
        compact(
            content.skip(
                if start < content.len() {
                    start
                } else {
                    0
                },
            ),
        ),
        120,
    );
    if start > 0 {
        seq!['…'] + shown
    } else {
        shown
    }
}

/// Makes a search result, given the lower-case forms.
pub fn search_snippet_of(
    content: &[char],
    query: &[char],
    content_lower: &[char],
    query_lower: &[char],
) -> (out: String)
    ensures
        out@ == search_snippet(content@, query@, content_lower@, query_lower@),
{
    let found: u128 = match text::position(content_lower, query_lower) {
        Some(i) => {
            let before = slice_subrange(content_lower, 0, i);
            proof {
                assert(before@ =~= content_lower@.take(i as int));
            }
            text::bytes_in(before)
        },
        None => 0,
    };
    let length: usize = query.len();
    let half: usize = if length < 120 {
        (120 - length) / 2
    } else {
        0
    };
    let start: u128 = if found > half as u128 {
        found - half as u128
    } else {
        0
    };
    let total: usize = content.len();
    let from: usize = if start < total as u128 {
        start as usize
    } else {
        0
    };
    let rest = slice_subrange(content, from, total);
    proof {
        assert(rest@ =~= content@.skip(from as int));
        assert(start == search_start(query@, content_lower@, query_lower@));
    }
    let line = text::join(&text::words_of(rest), " ");
    let shown = cut_text(line.as_slice(), 120);
    if start > 0 {
        let mut out: Vec<char> = Vec::new();
        out.push('…');
        text::append(&mut out, shown.as_slice());
        proof {
            assert(out@ =~= seq!['…'] + shown@);
        }
        return text::string_of(out.as_slice());
    }
    text::string_of(shown.as_slice())
}

/// Makes a search result.
pub fn create_search_snippet(content: &str, query: &str) -> (out: String)
    ensures
        out@ == search_snippet(
            content@,
            query@,
            text::lowercase(content@),
            text::lowercase(query@),
        ),
{
    let content_lower = text::to_lowercase(content);
    let query_lower = text::to_lowercase(query);
    search_snippet_of(
        text::chars_of(content).as_slice(),
        text::chars_of(query).as_slice(),
        text::chars_of(content_lower.as_str()).as_slice(),
        text::chars_of(query_lower.as_str()).as_slice(),
    )
}

// ---------------------------------------------------------------------
// Patterns
// ---------------------------------------------------------------------

/// A text up to its first zero character, which is where the database ends
/// a text that it matches.
pub open spec fn until_zero(s: Seq<char>) -> Seq<char>
    decreases s.len(),
{
    if s.len() == 0 || s[0] == '\0' {
        Seq::empty()
    } else {
        seq![s[0]] + until_zero(s.skip(1))
    }
}

/// Whether a text matches a pattern: a percent sign stands for any text, an
/// underscore for any character, and the escape character makes the one
/// behind it stand for itself. Upper and lower case of ASCII letters are
/// equal.
pub open spec fn matches_pattern(pattern: Seq<char>, s: Seq<char>, escape: Option<char>) -> bool
    decreases pattern.len(), s.len(),
{
    if pattern.len() == 0 {
        s.len() == 0
    } else if escape == Some(pattern[0]) {
        pattern.len() > 1 && s.len() > 0 && text::ascii_lower_char(pattern[1])
            == text::ascii_lower_char(s[0]) && matches_pattern(pattern.skip(2), s.skip(1), escape)
    } else if pattern[0] == '%' {
        matches_pattern(pattern.skip(1), s, escape) || (s.len() > 0 && matches_pattern(
            pattern,
            s.skip(1),
            escape,
        ))
    } else if pattern[0] == '_' {
        s.len() > 0 && matches_pattern(pattern.skip(1), s.skip(1), escape)
    } else {
        s.len() > 0 && text::ascii_lower_char(pattern[0]) == text::ascii_lower_char(s[0])
            && matches_pattern(pattern.skip(1), s.skip(1), escape)
    }
}

fn lower_char(c: char) -> (r: char)
    ensures
        r == text::ascii_lower_char(c),
{
    if 'A' <= c && c <= 'Z' {
        (c as u8 + 32) as char
    } else {
        c
    }
}

/// Whether a text matches a pattern from the given places on.
fn match_from(pattern: &[char], p: usize, s: &[char], i: usize, escape: Option<char>) -> (r: bool)
    requires
        p <= pattern@.len(),
        i <= s@.len(),
    ensures
        r == matches_pattern(pattern@.skip(p as int), s@.skip(i as int), escape),
    decreases pattern@.len() - p,
{
    proof {
        let pp = pattern@.skip(p as int);
        let ss = s@.skip(i as int);
        if pp.len() > 0 {
            assert(pp[0] == pattern@[p as int]);
            assert(pp.skip(1) =~= pattern@.skip(p + 1));
        }
        if pp.len() > 1 {
            assert(pp[1] == pattern@[p + 1]);
            assert(pp.skip(2) =~= pattern@.skip(p + 2));
        }
        if ss.len() > 0 {
            assert(ss[0] == s@[i as int]);
            assert(ss.skip(1) =~= s@.skip(i + 1));
        }
    }
    if p == pattern.len() {
        return i == s.len();
    }
    let c = pattern[p];
    let escaped = match escape {
        Some(e) => e == c,
        None => false,
    };
    if escaped {
        if pattern.len() - p < 2 || i == s.len() || lower_char(pattern[p + 1]) != lower_char(s[i]) {
            return false;
        }
        return match_from(pattern, p + 2, s, i + 1, escape);
    }
    if c == '%' {
        let next: usize = p + 1;
        let mut k: usize = i;
        while k < s.len()
            invariant
                next == p + 1,
                p < pattern@.len(),
                pattern@[p as int] == '%',
                escape != Some('%'),
                i <= k <= s@.len(),
                matches_pattern(pattern@.skip(p as int), s@.skip(i as int), escape)
                    == matches_pattern(pattern@.skip(p as int), s@.skip(k as int), escape),
            decreases s@.len() - k,
        {
            proof {
                assert(pattern@.skip(p as int)[0] == '%');
                assert(pattern@.skip(p as int).skip(1) =~= pattern@.skip(p + 1));
                assert(s@.skip(k as int).skip(1) =~= s@.skip(k + 1));
            }
            if match_from(pattern, next, s, k, escape) {
                return true;
            }
            k += 1;
        }
        proof {
            assert(pattern@.skip(p as int).skip(1) =~= pattern@.skip(p + 1));
        }
        return match_from(pattern, next, s, k, escape);
    }
    if i == s.len() {
        return false;
    }
    if c != '_' && lower_char(c) != lower_char(s[i]) {
        return false;
    }
    match_from(pattern, p + 1, s, i + 1, escape)
}

/// Ends a text at its first zero character.
fn cut_at_zero(s: &[char]) -> (out: Vec<char>)
    ensures
        out@ == until_zero(s@),
{
    let mut out: Vec<char> = Vec::new();
    let mut i: usize = 0;
    proof {
        assert(s@.skip(0) =~= s@);
        assert(out@ + until_zero(s@.skip(0)) =~= until_zero(s@));
    }
    while i < s.len() && s[i] != '\0'
        invariant
            i <= s@.len(),
            until_zero(s@) == out@ + until_zero(s@.skip(i as int)),
        decreases s@.len() - i,
    {
        let ghost before = out@;
        proof {
            assert(s@.skip(i as int).skip(1) =~= s@.skip(i + 1));
        }
        out.push(s[i]);
        proof {
            assert(before + (seq![s@[i as int]] + until_zero(s@.skip(i + 1))) =~= out@ + until_zero(
                s@.skip(i + 1),
            ));
        }
        i += 1;
    }
    proof {
        assert(until_zero(s@.skip(i as int)) =~= Seq::<char>::empty());
        assert(out@ + Seq::<char>::empty() =~= out@);
    }
    out
}

/// Whether the database finds that a text is like a pattern.
pub open spec fn like(s: Seq<char>, pattern: Seq<char>, escape: Option<char>) -> bool {
    matches_pattern(until_zero(pattern), until_zero(s), escape)
}

/// Whether a text is like a pattern.
pub fn is_like(s: &str, pattern: &[char], escape: Option<char>) -> (r: bool)
    ensures
        r == like(s@, pattern@, escape),
{
    let p = cut_at_zero(pattern);
    let t = cut_at_zero(text::chars_of(s).as_slice());
    proof {
        assert(p@.skip(0) =~= p@);
        assert(t@.skip(0) =~= t@);
    }
    match_from(p.as_slice(), 0, t.as_slice(), 0, escape)
}

/// The pattern of texts that contain the query, whose percent signs and
/// underscores stand for themselves.
pub open spec fn search_pattern(query: Seq<char>) -> Seq<char> {
    "%"@ + text::replaced(text::replaced(query, '%', "\\%"@), '_', "\\_"@) + "%"@
}

/// Makes the pattern of a search.
pub fn make_search_pattern(query: &str) -> (out: Vec<char>)
    ensures
        out@ == search_pattern(query@),
{
    let first = text::replace_char(text::chars_of(query).as_slice(), '%', "\\%");
    let second = text::replace_char(first.as_slice(), '_', "\\_");
    let mut out = text::chars_of("%");
    text::append(&mut out, second.as_slice());
    text::append_str(&mut out, "%");
    out
}

// ---------------------------------------------------------------------
// Results of tools
// ---------------------------------------------------------------------

/// The result in a segment of a tool message, if the segment is one of the
/// tool: the name in the bracket is the tool's, alone or before a number
/// sign. A segment is what follows the opening of a header.
pub open spec fn segment_result(segment: Seq<char>, tool: Seq<char>) -> Option<Seq<char>> {
    let rest = text::trimmed_start(segment);
    match text::find(rest, "]\n"@) {
        Some(i) => if rest.take(i) == tool || text::begins(rest.take(i), tool + "#"@) {
            Some(rest.skip(i + 2))
        } else {
            None
        },
        None => None,
    }
}

/// The segments of a tool message. Each begins with a header, at the start
/// of the content or after a blank line, and runs up to the next header or
/// the end; a blank line alone does not end it.
pub open spec fn tool_segments(content: Seq<char>) -> Seq<Seq<char>> {
    let pieces = text::split_text(content, "\n\n[Tool:"@);
    if text::begins(pieces[0], "[Tool:"@) {
        pieces.update(0, pieces[0].skip("[Tool:"@.len() as int))
    } else {
        pieces.skip(1)
    }
}

/// The result of a tool in the content of a tool message: the last segment
/// of the tool.
pub open spec fn tool_result(content: Seq<char>, tool: Seq<char>) -> Option<Seq<char>> {
    last_result(tool_segments(content), tool)
}

/// The result of a tool in the last segment that holds one.
pub open spec fn last_result(segments: Seq<Seq<char>>, tool: Seq<char>) -> Option<Seq<char>>
    decreases segments.len(),
{
    if segments.len() == 0 {
        None
    } else {
        match segment_result(segments.last(), tool) {
            Some(r) => Some(r),
            None => last_result(segments.drop_last(), tool),
        }
    }
}

fn read_segment(segment: &[char], tool: &[char]) -> (r: Option<String>)
    ensures
        r.deep_view() == segment_result(segment@, tool@),
{
    proof {
        reveal_strlit("]\n");
    }
    let rest = text::trim_start(segment);
    let total: usize = rest.len();
    match text::position_str(rest, "]\n") {
        None => None,
        Some(i) => {
            let identifier = slice_subrange(rest, 0, i);
            proof {
                assert(identifier@ =~= rest@.take(i as int));
            }
            let mut prefix = text::copy_of(tool);
            text::append_str(&mut prefix, "#");
            let prefix_text = text::string_of(prefix.as_slice());
            if text::same(identifier, tool) || text::starts_with(identifier, prefix_text.as_str()) {
                let result = slice_subrange(rest, i + 2, total);
                proof {
                    assert(result@ =~= rest@.skip(i + 2));
                }
                return Some(text::string_of(result));
            }
            None
        },
    }
}

/// The segments of a tool message.
fn split_segments(content: &str) -> (out: Vec<Vec<char>>)
    ensures
        text::texts(out@) == tool_segments(content@),
{
    proof {
        reveal_strlit("\n\n[Tool:");
    }
    let chars = text::chars_of(content);
    let mut pieces = text::split_at_text(chars.as_slice(), "\n\n[Tool:");
    let ghost all = text::texts(pieces@);
    proof {
        text::lemma_split_text_len(content@, "\n\n[Tool:"@);
        assert(all[0] == pieces@[0]@);
    }
    let first = pieces.remove(0);
    let rest = pieces;
    proof {
        assert(text::texts(rest@) =~= all.skip(1));
    }
    if !text::starts_with(first.as_slice(), "[Tool:") {
        return rest;
    }
    let marker = text::chars_of("[Tool:");
    let after = slice_subrange(first.as_slice(), marker.len(), first.len());
    let mut out = rest;
    out.insert(0, text::copy_of(after));
    proof {
        assert(after@ =~= all[0].skip("[Tool:"@.len() as int));
        assert(text::texts(out@) =~= tool_segments(content@));
    }
    out
}

/// Takes the result of a tool out of the content of a tool message.
pub fn extract_tool_result(content: &str, tool_name: &str) -> (r: Option<String>)
    ensures
        r.deep_view() == tool_result(content@, tool_name@),
{
    let tool = text::chars_of(tool_name);
    let segments = split_segments(content);
    let ghost all = text::texts(segments@);
    let mut n: usize = segments.len();
    proof {
        assert(all.take(n as int) =~= all);
    }
    while n > 0
        invariant
            n <= segments@.len(),
            tool@ == tool_name@,
            all == text::texts(segments@),
            all == tool_segments(content@),
            last_result(all, tool_name@) == last_result(all.take(n as int), tool_name@),
        decreases n,
    {
        proof {
            assert(all.take(n as int).drop_last() =~= all.take(n - 1));
            assert(all.take(n as int).last() == segments@[n - 1]@);
        }
        match read_segment(segments[n - 1].as_slice(), tool.as_slice()) {
            Some(r) => {
                return Some(r);
            },
            None => {},
        }
        n -= 1;
    }
    None
}

/// A segment of a tool message as it is written.
pub open spec fn written_segment(tool: Seq<char>, result: Seq<char>) -> Seq<char> {
    "[Tool: "@ + tool + "]\n"@ + result
}

/// Whether a text can be the name of a tool in a header: it stands in one
/// line, and white space does not come first.
pub open spec fn is_tool_name(tool: Seq<char>) -> bool {
    tool.len() > 0 && !text::white(tool[0]) && !tool.contains('\n')
}

/// The name in a header ends at its bracket.
#[verifier::spinoff_prover]
proof fn lemma_name_ends(tool: Seq<char>, result: Seq<char>)
    requires
        is_tool_name(tool),
    ensures
        text::find(tool + "]\n"@ + result, "]\n"@) == Some(tool.len() as int),
{
    reveal_strlit("]\n");
    let close = "]\n"@;
    let rest = tool + close + result;
    let n = tool.len() as int;
    assert(rest.subrange(n, n + 2) =~= close);
    assert(text::stands_at(rest, close, n));
    assert forall|i: int| 0 <= i < n implies !text::stands_at(rest, close, i) by {
        if text::stands_at(rest, close, i) {
            assert(rest.subrange(i, i + 2)[1] == rest[i + 1]);
            assert(close[1] == '\n');
            if i + 1 < n {
                assert(tool[i + 1] == '\n');
            } else {
                assert(rest[n] == close[0]);
            }
        }
    }
    text::lemma_find_from(rest, close, 0);
}

/// White space before a name does not count.
proof fn lemma_space_dropped(rest: Seq<char>)
    requires
        rest.len() > 0,
        !text::white(rest[0]),
    ensures
        text::trimmed_start(" "@ + rest) == rest,
{
    reveal_strlit(" ");
    let s = " "@ + rest;
    assert(s.skip(1) =~= rest);
    assert(s[0] == ' ');
    assert(text::trimmed_start(rest) == rest);
}

proof fn lemma_segment_read(tool: Seq<char>, result: Seq<char>)
    requires
        is_tool_name(tool),
    ensures
        segment_result(" "@ + tool + "]\n"@ + result, tool) == Some(result),
{
    let segment = " "@ + tool + "]\n"@ + result;
    let rest = tool + "]\n"@ + result;
    assert(segment =~= " "@ + rest);
    assert(rest[0] == tool[0]);
    lemma_space_dropped(rest);
    lemma_name_ends(tool, result);
    let n = tool.len() as int;
    assert("]\n"@.len() == 2) by {
        reveal_strlit("]\n");
    }
    assert(rest.take(n) =~= tool);
    assert(rest.skip(n + 2) =~= result);
}

/// Two headers do not overlap.
proof fn lemma_headers_apart(s: Seq<char>, i: int, k: int)
    requires
        text::stands_at(s, "\n\n[Tool:"@, i),
        text::stands_at(s, "\n\n[Tool:"@, k),
        i < k,
    ensures
        i + "\n\n[Tool:"@.len() <= k,
{
    reveal_strlit("\n\n[Tool:");
    let sep = "\n\n[Tool:"@;
    let n = sep.len() as int;
    if k < i + n {
        assert(s.subrange(i, i + n)[k - i] == s[k]);
        assert(s.subrange(k, k + n)[0] == s[k]);
        assert(sep[k - i] == '\n');
        assert(k - i == 1);
        assert(s.subrange(i, i + n)[2] == s[i + 2]);
        assert(s.subrange(k, k + n)[1] == s[k + 1]);
    }
}

/// The last piece is what follows the last header.
proof fn lemma_last_piece(front: Seq<char>, rest: Seq<char>)
    requires
        !text::occurs(rest, "\n\n[Tool:"@),
    ensures
        ({
            let pieces = text::split_text(front + "\n\n[Tool:"@ + rest, "\n\n[Tool:"@);
            pieces.len() >= 2 && pieces.last() == rest
        }),
    decreases front.len(),
{
    reveal_strlit("\n\n[Tool:");
    let sep = "\n\n[Tool:"@;
    let n = sep.len() as int;
    let at = front.len() as int;
    let s = front + sep + rest;
    assert(s.subrange(at, at + n) =~= sep);
    assert(text::stands_at(s, sep, at));
    text::lemma_find_from(s, sep, 0);
    let i = text::find(s, sep)->0;
    assert(i <= at);
    let after = s.skip(i + n);
    assert(text::split_text(s, sep) == seq![s.take(i)] + text::split_text(after, sep));
    if i < at {
        lemma_headers_apart(s, i, at);
        let later = front.skip(i + n);
        assert(after =~= later + sep + rest);
        lemma_last_piece(later, rest);
    } else {
        assert(after =~= rest);
        text::lemma_find_from(rest, sep, 0);
        assert(text::find(rest, sep) is None);
        assert(text::split_text(rest, sep) =~= seq![rest]);
    }
}

/// What is written under the name of a tool is read back, whole: behind
/// anything else that a tool message holds, and alone. A result may hold
/// blank lines, but no header of its own.
pub proof fn law_tool_result_reads_back(front: Seq<char>, tool: Seq<char>, result: Seq<char>)
    requires
        is_tool_name(tool),
        !text::occurs(written_segment(tool, result), "\n\n[Tool:"@),
    ensures
        tool_result(front + "\n\n"@ + written_segment(tool, result), tool) == Some(result),
        tool_result(written_segment(tool, result), tool) == Some(result),
{
    reveal_strlit("\n\n[Tool:");
    reveal_strlit("\n\n");
    reveal_strlit("[Tool:");
    reveal_strlit("[Tool: ");
    reveal_strlit(" ");
    let sep = "\n\n[Tool:"@;
    let body = " "@ + tool + "]\n"@ + result;
    let alone = written_segment(tool, result);
    lemma_segment_read(tool, result);
    assert(alone =~= "[Tool:"@ + body);
    assert(!text::occurs(body, sep)) by {
        if text::occurs(body, sep) {
            let i = choose|i: int| text::stands_at(body, sep, i);
            assert(alone.subrange(i + 6, i + 6 + sep.len()) =~= body.subrange(i, i + sep.len()));
            assert(text::stands_at(alone, sep, i + 6));
        }
    }
    // Behind other content.
    let content = front + "\n\n"@ + alone;
    assert(content =~= front + sep + body);
    lemma_last_piece(front, body);
    let segments = tool_segments(content);
    assert(segments.last() == body);
    assert(last_result(segments, tool) == Some(result));
    // Alone.
    text::lemma_find_from(alone, sep, 0);
    if text::find(alone, sep) is Some {
        assert(text::stands_at(alone, sep, text::find(alone, sep)->0));
    }
    assert(text::split_text(alone, sep) =~= seq![alone]);
    assert(alone.take(6) =~= "[Tool:"@);
    assert(alone.skip(6) =~= body);
    assert(tool_segments(alone) =~= seq![body]);
    assert(seq![body].last() == body);
}

/// The pieces before the last header are those of what stands before it.
proof fn lemma_pieces_before(front: Seq<char>, rest: Seq<char>)
    requires
        !text::occurs(rest, "\n\n[Tool:"@),
    ensures
        text::split_text(front + "\n\n[Tool:"@ + rest, "\n\n[Tool:"@) == text::split_text(
            front,
            "\n\n[Tool:"@,
        ).push(rest),
    decreases front.len(),
{
    reveal_strlit("\n\n[Tool:");
    let sep = "\n\n[Tool:"@;
    let n = sep.len() as int;
    let at = front.len() as int;
    let s = front + sep + rest;
    assert(s.subrange(at, at + n) =~= sep);
    assert(text::stands_at(s, sep, at));
    text::lemma_find_from(s, sep, 0);
    text::lemma_find_from(front, sep, 0);
    let i = text::find(s, sep)->0;
    let after = s.skip(i + n);
    assert forall|j: int| text::stands_at(front, sep, j) implies text::stands_at(s, sep, j) by {
        assert(front.subrange(j, j + n) =~= s.subrange(j, j + n));
    }
    if i < at {
        lemma_headers_apart(s, i, at);
        assert(front.subrange(i, i + n) =~= s.subrange(i, i + n));
        assert(text::stands_at(front, sep, i));
        assert(text::find(front, sep) == Some(i));
        let later = front.skip(i + n);
        assert(after =~= later + sep + rest);
        lemma_pieces_before(later, rest);
        assert(s.take(i) =~= front.take(i));
        assert(text::split_text(s, sep) == seq![s.take(i)] + text::split_text(after, sep));
        assert(text::split_text(front, sep) == seq![front.take(i)] + text::split_text(later, sep));
        assert(text::split_text(s, sep) =~= text::split_text(front, sep).push(rest));
    } else {
        assert(text::find(front, sep) is None);
        assert(after =~= rest);
        assert(s.take(at) =~= front);
        assert(text::split_text(s, sep) == seq![front] + text::split_text(rest, sep));
        assert(text::split_text(front, sep) =~= seq![front]);
        text::lemma_find_from(rest, sep, 0);
        assert(text::find(rest, sep) is None);
        assert(text::split_text(rest, sep) =~= seq![rest]);
        assert(seq![front] + seq![rest] =~= seq![front].push(rest));
    }
}

/// The result of a call that is numbered behind a number sign is a result
/// of its tool, and one of another tool is none: what was found before it
/// is found still.
pub proof fn law_results_go_by_the_name(
    front: Seq<char>,
    name: Seq<char>,
    tool: Seq<char>,
    number: Seq<char>,
    result: Seq<char>,
)
    requires
        is_tool_name(name),
        !text::occurs(written_segment(name, result), "\n\n[Tool:"@),
    ensures
        name == tool + seq!['#'] + number ==> tool_result(
            front + "\n\n"@ + written_segment(name, result),
            tool,
        ) == Some(result),
        name != tool && !text::begins(name, tool + seq!['#']) ==> tool_result(
            front + "\n\n"@ + written_segment(name, result),
            tool,
        ) == tool_result(front, tool),
{
    reveal_strlit("\n\n[Tool:");
    reveal_strlit("\n\n");
    reveal_strlit("[Tool:");
    reveal_strlit("[Tool: ");
    reveal_strlit("]\n");
    reveal_strlit(" ");
    reveal_strlit("#");
    let sep = "\n\n[Tool:"@;
    let body = " "@ + name + "]\n"@ + result;
    let alone = written_segment(name, result);
    assert(alone =~= "[Tool:"@ + body);
    assert(!text::occurs(body, sep)) by {
        if text::occurs(body, sep) {
            let i = choose|i: int| text::stands_at(body, sep, i);
            assert(alone.subrange(i + 6, i + 6 + sep.len()) =~= body.subrange(i, i + sep.len()));
            assert(text::stands_at(alone, sep, i + 6));
        }
    }
    let content = front + "\n\n"@ + alone;
    assert(content =~= front + sep + body);
    lemma_pieces_before(front, body);
    text::lemma_split_text_len(front, sep);
    let segments = tool_segments(content);
    assert(segments =~= tool_segments(front).push(body));
    assert(segments.drop_last() =~= tool_segments(front));
    // The name of the last segment.
    let rest = name + "]\n"@ + result;
    let n = name.len() as int;
    assert(body =~= " "@ + rest);
    assert(rest[0] == name[0]);
    lemma_space_dropped(rest);
    lemma_name_ends(name, result);
    assert(rest.take(n) =~= name);
    assert(rest.skip(n + 2) =~= result);
    assert(tool + seq!['#'] =~= tool + "#"@);
    if name == tool + seq!['#'] + number {
        assert(name.take((tool + "#"@).len() as int) =~= tool + "#"@);
    }
}

// ---------------------------------------------------------------------
// Identifiers
// ---------------------------------------------------------------------

/// An identifier: a prefix, a point in time and a process.
pub open spec fn chat_id(prefix: Seq<char>, timestamp: i64, process: u32) -> Seq<char> {
    prefix + "-"@ + text::signed_decimal(timestamp as int) + "-"@ + text::decimal(process as nat)
}

/// Makes an identifier for a point in time.
pub fn chat_id_at(prefix: &str, timestamp: i64, process: u32) -> (out: String)
    ensures
        out@ == chat_id(prefix@, timestamp, process),
{
    let mut out = text::chars_of(prefix);
    text::append_str(&mut out, "-");
    text::append(&mut out, text::write_i64(timestamp).as_slice());
    text::append_str(&mut out, "-");
    text::append(&mut out, text::write_u64(process as u64).as_slice());
    text::string_of(out.as_slice())
}

/// Makes the identifier of a message from its place among those that are
/// added together.
pub(crate) fn message_name(index: usize, timestamp: i64, process: u32) -> (out: String)
    ensures
        out@ == chat_id("msg"@ + text::decimal(index as nat), timestamp, process),
{
    let mut prefix = text::chars_of("msg");
    text::append(&mut prefix, text::write_u64(index as u64).as_slice());
    chat_id_at(text::string_of(prefix.as_slice()).as_str(), timestamp, process)
}

/// `chrono::Utc::now` in nanoseconds since 1970, where a 64-bit number holds
/// them. Nothing is stated of the result: it is the time.
#[verifier::external_body]
fn clock_nanos() -> (n: Option<i64>) {
    chrono::Utc::now().timestamp_nanos_opt()
}

/// `chrono::Utc::now` in microseconds since 1970. Nothing is stated of the
/// result: it is the time.
#[verifier::external_body]
fn clock_micros() -> (n: i64) {
    chrono::Utc::now().timestamp_micros()
}

/// The point in time of an identifier: nanoseconds, made of microseconds
/// where the clock does not give them. Beyond the range of 64 bits it wraps
/// around, so that every time has one.
pub fn timestamp_of(nanos: Option<i64>, micros: i64) -> (t: i64)
    ensures
        t == (match nanos {
            Some(n) => n,
            None => micros.wrapping_mul(1000),
        }),
{
    match nanos {
        Some(n) => n,
        None => micros.wrapping_mul(1000),
    }
}

/// Makes an identifier for the present. Which time it holds is for the clock
/// to say.
pub fn create_chat_id(prefix: &str, process: u32) -> (id: String)
    ensures
        exists|timestamp: i64| id@ == #[trigger] chat_id(prefix@, timestamp, process),
{
    let nanos = clock_nanos();
    let micros: i64 = clock_micros();
    chat_id_at(prefix, timestamp_of(nanos, micros), process)
}

} // verus!
