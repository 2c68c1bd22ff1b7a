//! Text as sequences of characters: the searching, trimming and splitting
//! rules that the other modules share.

use vstd::prelude::*;

verus! {

// ---------------------------------------------------------------------
// Standard library functions without a specification in vstd
// ---------------------------------------------------------------------

/// `String::push` appends one character to the end of the string.
pub assume_specification[ String::push ](s: &mut String, ch: char)
    ensures
        final(s)@ == old(s)@.push(ch),
;

/// What `str::to_lowercase` gives for a text.
pub uninterp spec fn lowercase(s: Seq<char>) -> Seq<char>;

/// `str::to_lowercase`: the text with its characters mapped by the Unicode
/// lower-case rules. The result depends on the text alone; which text it is
/// is not stated.
#[verifier::external_body]
pub(crate) fn to_lowercase(s: &str) -> (out: String)
    ensures
        out@ == lowercase(s@),
{
    s.to_lowercase()
}

/// What `String::from_utf8_lossy` gives for bytes.
pub uninterp spec fn lossy_text(bytes: Seq<u8>) -> Seq<char>;

/// `String::from_utf8_lossy`: the text that the bytes encode in UTF-8, with
/// replacement characters where they encode none. The result depends on the
/// bytes alone, and valid UTF-8 gives the text that it encodes; where the
/// replacement characters come is not stated.
#[verifier::external_body]
pub(crate) fn from_utf8_lossy(bytes: &[u8]) -> (out: String)
    ensures
        out@ == lossy_text(bytes@),
        vstd::utf8::valid_utf8(bytes@) ==> out@ == vstd::utf8::decode_utf8(bytes@),
{
    String::from_utf8_lossy(bytes).into_owned()
}

// ---------------------------------------------------------------------
// Conversions
// ---------------------------------------------------------------------

/// The characters of a string.
pub fn chars_of(s: &str) -> (out: Vec<char>)
    ensures
        out@ == s@,
{
    let mut out: Vec<char> = Vec::new();
    for c in it: s.chars()
        invariant
            it.seq() == s@,
            out@ == s@.take(it.index() as int),
    {
        out.push(c);
    }
    out
}

/// The empty string.
pub(crate) fn empty() -> (s: String)
    ensures
        s@ == Seq::<char>::empty(),
{
    let s = String::new();
    proof {
        assert(s@ =~= Seq::<char>::empty());
    }
    s
}

/// Whether a string is the given text.
pub(crate) fn is_text(s: &String, what: &str) -> (r: bool)
    ensures
        r == (s@ == what@),
{
    equals(chars_of(s.as_str()).as_slice(), what)
}

/// A string without the white space around it.
pub(crate) fn trimmed_string(s: &str) -> (out: String)
    ensures
        out@ == trimmed(s@),
{
    string_of(trim(chars_of(s).as_slice()))
}

/// The string made of the given characters.
pub fn string_of(chars: &[char]) -> (out: String)
    ensures
        out@ == chars@,
{
    let mut out = String::new();
    let mut i: usize = 0;
    while i < chars.len()
        invariant
            i <= chars@.len(),
            out@ == chars@.take(i as int),
        decreases chars@.len() - i,
    {
        out.push(chars[i]);
        i += 1;
    }
    out
}


// ---------------------------------------------------------------------
// White space and trimming
// ---------------------------------------------------------------------

/// The characters with the Unicode property White_Space.
pub open spec fn white(c: char) -> bool {
    let u = c as u32;
    ||| 0x09 <= u <= 0x0D
    ||| u == 0x20
    ||| u == 0x85
    ||| u == 0xA0
    ||| u == 0x1680
    ||| 0x2000 <= u <= 0x200A
    ||| u == 0x2028
    ||| u == 0x2029
    ||| u == 0x202F
    ||| u == 0x205F
    ||| u == 0x3000
}

/// Whether a character is white space.
pub fn is_white(c: char) -> (b: bool)
    ensures
        b == white(c),
{
    let u: u32 = c as u32;
    (0x09 <= u && u <= 0x0D) || u == 0x20 || u == 0x85 || u == 0xA0 || u == 0x1680 || (0x2000
        <= u && u <= 0x200A) || u == 0x2028 || u == 0x2029 || u == 0x202F || u == 0x205F || u
        == 0x3000
}

/// A text without its leading white space.
pub open spec fn trimmed_start(s: Seq<char>) -> Seq<char>
    decreases s.len(),
{
    if s.len() > 0 && white(s[0]) {
        trimmed_start(s.skip(1))
    } else {
        s
    }
}

/// A text without its trailing white space.
pub open spec fn trimmed_end(s: Seq<char>) -> Seq<char>
    decreases s.len(),
{
    if s.len() > 0 && white(s.last()) {
        trimmed_end(s.drop_last())
    } else {
        s
    }
}

/// A text without white space at either end.
pub open spec fn trimmed(s: Seq<char>) -> Seq<char> {
    trimmed_end(trimmed_start(s))
}

/// Drops leading white space.
pub fn trim_start<'a>(s: &'a [char]) -> (out: &'a [char])
    ensures
        out@ == trimmed_start(s@),
{
    let mut i: usize = 0;
    proof {
        assert(s@.skip(0) =~= s@);
    }
    while i < s.len() && is_white(s[i])
        invariant
            i <= s@.len(),
            trimmed_start(s@) == trimmed_start(s@.skip(i as int)),
        decreases s@.len() - i,
    {
        proof {
            assert(s@.skip(i as int).skip(1) =~= s@.skip(i + 1));
        }
        i += 1;
    }
    proof {
        assert(s@.subrange(i as int, s@.len() as int) =~= s@.skip(i as int));
    }
    vstd::slice::slice_subrange(s, i, s.len())
}

/// Drops trailing white space.
pub fn trim_end<'a>(s: &'a [char]) -> (out: &'a [char])
    ensures
        out@ == trimmed_end(s@),
{
    let mut n: usize = s.len();
    proof {
        assert(s@.take(n as int) =~= s@);
    }
    while n > 0 && is_white(s[n - 1])
        invariant
            n <= s@.len(),
            trimmed_end(s@) == trimmed_end(s@.take(n as int)),
        decreases n,
    {
        proof {
            assert(s@.take(n as int).drop_last() =~= s@.take(n - 1));
        }
        n -= 1;
    }
    proof {
        assert(s@.subrange(0, n as int) =~= s@.take(n as int));
    }
    vstd::slice::slice_subrange(s, 0, n)
}

/// Drops white space at both ends.
pub fn trim<'a>(s: &'a [char]) -> (out: &'a [char])
    ensures
        out@ == trimmed(s@),
{
    trim_end(trim_start(s))
}

/// A text without the leading repetitions of `c`.
pub open spec fn without_leading(s: Seq<char>, c: char) -> Seq<char>
    decreases s.len(),
{
    if s.len() > 0 && s[0] == c {
        without_leading(s.skip(1), c)
    } else {
        s
    }
}

/// A text without the trailing repetitions of `c`.
pub open spec fn without_trailing(s: Seq<char>, c: char) -> Seq<char>
    decreases s.len(),
{
    if s.len() > 0 && s.last() == c {
        without_trailing(s.drop_last(), c)
    } else {
        s
    }
}

/// Drops every leading `c`.
pub fn trim_start_char<'a>(s: &'a [char], c: char) -> (out: &'a [char])
    ensures
        out@ == without_leading(s@, c),
{
    let mut i: usize = 0;
    proof {
        assert(s@.skip(0) =~= s@);
    }
    while i < s.len() && s[i] == c
        invariant
            i <= s@.len(),
            without_leading(s@, c) == without_leading(s@.skip(i as int), c),
        decreases s@.len() - i,
    {
        proof {
            assert(s@.skip(i as int).skip(1) =~= s@.skip(i + 1));
        }
        i += 1;
    }
    proof {
        assert(s@.subrange(i as int, s@.len() as int) =~= s@.skip(i as int));
    }
    vstd::slice::slice_subrange(s, i, s.len())
}

/// Drops every trailing `c`.
pub fn trim_end_char<'a>(s: &'a [char], c: char) -> (out: &'a [char])
    ensures
        out@ == without_trailing(s@, c),
{
    let mut n: usize = s.len();
    proof {
        assert(s@.take(n as int) =~= s@);
    }
    while n > 0 && s[n - 1] == c
        invariant
            n <= s@.len(),
            without_trailing(s@, c) == without_trailing(s@.take(n as int), c),
        decreases n,
    {
        proof {
            assert(s@.take(n as int).drop_last() =~= s@.take(n - 1));
        }
        n -= 1;
    }
    proof {
        assert(s@.subrange(0, n as int) =~= s@.take(n as int));
    }
    vstd::slice::slice_subrange(s, 0, n)
}

// ---------------------------------------------------------------------
// Searching
// ---------------------------------------------------------------------

/// Whether `p` stands in `s` at position `at`.
pub open spec fn stands_at(s: Seq<char>, p: Seq<char>, at: int) -> bool {
    0 <= at && at + p.len() <= s.len() && s.subrange(at, at + p.len()) == p
}

/// The first position, from `from` on, at which `p` stands in `s`.
pub open spec fn find_from(s: Seq<char>, p: Seq<char>, from: int) -> Option<int>
    decreases s.len() + 1 - from,
{
    if from < 0 || from + p.len() > s.len() {
        None
    } else if stands_at(s, p, from) {
        Some(from)
    } else {
        find_from(s, p, from + 1)
    }
}

/// The first position at which `p` stands in `s`.
pub open spec fn find(s: Seq<char>, p: Seq<char>) -> Option<int> {
    find_from(s, p, 0)
}

/// A search gives the least position at or after its start, and gives none
/// only when there is none.
pub proof fn lemma_find_from(s: Seq<char>, p: Seq<char>, from: int)
    requires
        0 <= from,
    ensures
        match find_from(s, p, from) {
            Some(i) => from <= i && stands_at(s, p, i) && forall|j: int|
                from <= j < i ==> !stands_at(s, p, j),
            None => forall|j: int| from <= j ==> !stands_at(s, p, j),
        },
    decreases s.len() + 1 - from,
{
    if from + p.len() <= s.len() && !stands_at(s, p, from) {
        lemma_find_from(s, p, from + 1);
    }
}

/// Whether `p` occurs in `s`.
pub open spec fn occurs(s: Seq<char>, p: Seq<char>) -> bool {
    exists|i: int| stands_at(s, p, i)
}

/// Whether `s` begins with `p`.
pub open spec fn begins(s: Seq<char>, p: Seq<char>) -> bool {
    p.len() <= s.len() && s.take(p.len() as int) == p
}

/// Whether `s` ends with `p`.
pub open spec fn finishes(s: Seq<char>, p: Seq<char>) -> bool {
    p.len() <= s.len() && s.skip(s.len() - p.len()) == p
}

/// Whether the characters of two slices agree.
pub fn same(a: &[char], b: &[char]) -> (r: bool)
    ensures
        r == (a@ == b@),
{
    if a.len() != b.len() {
        return false;
    }
    let mut i: usize = 0;
    while i < a.len()
        invariant
            i <= a@.len(),
            a@.len() == b@.len(),
            forall|j: int| 0 <= j < i ==> a@[j] == b@[j],
        decreases a@.len() - i,
    {
        if a[i] != b[i] {
            return false;
        }
        i += 1;
    }
    proof {
        assert(a@ =~= b@);
    }
    true
}

/// Whether `p` stands in `s` at position `at`.
pub fn matches_at(s: &[char], p: &[char], at: usize) -> (r: bool)
    ensures
        r == stands_at(s@, p@, at as int),
{
    if at > s.len() || p.len() > s.len() - at {
        return false;
    }
    same(vstd::slice::slice_subrange(s, at, at + p.len()), p)
}

/// Finds the first position of `p`, from `from` on.
pub fn position_from(s: &[char], p: &[char], from: usize) -> (r: Option<usize>)
    ensures
        match r {
            Some(i) => find_from(s@, p@, from as int) == Some(i as int) && from <= i && i
                + p@.len() <= s@.len(),
            None => find_from(s@, p@, from as int) is None,
        },
{
    let mut i: usize = from;
    while i <= s.len() && p.len() <= s.len() - i
        invariant
            from <= i,
            find_from(s@, p@, from as int) == find_from(s@, p@, i as int),
        decreases s@.len() + 1 - i,
    {
        if matches_at(s, p, i) {
            return Some(i);
        }
        proof {
            if i == s@.len() {
                assert(s@.subrange(i as int, i as int) =~= p@);
            }
        }
        i += 1;
    }
    None
}

/// Finds the first position of `p`.
pub fn position(s: &[char], p: &[char]) -> (r: Option<usize>)
    ensures
        match r {
            Some(i) => find(s@, p@) == Some(i as int) && i + p@.len() <= s@.len(),
            None => find(s@, p@) is None,
        },
{
    position_from(s, p, 0)
}

/// Finds the first position of a string.
pub fn position_str(s: &[char], p: &str) -> (r: Option<usize>)
    ensures
        match r {
            Some(i) => find(s@, p@) == Some(i as int) && i + p@.len() <= s@.len(),
            None => find(s@, p@) is None,
        },
{
    let chars = chars_of(p);
    position(s, chars.as_slice())
}

/// Whether `p` occurs in `s`.
pub fn contains_str(s: &[char], p: &str) -> (r: bool)
    ensures
        r == occurs(s@, p@),
{
    proof {
        lemma_find_from(s@, p@, 0);
    }
    position_str(s, p).is_some()
}

/// Whether `s` begins with `p`.
pub fn starts_with(s: &[char], p: &str) -> (r: bool)
    ensures
        r == begins(s@, p@),
{
    let chars = chars_of(p);
    proof {
        if p@.len() <= s@.len() {
            assert(s@.subrange(0, p@.len() as int) =~= s@.take(p@.len() as int));
        }
    }
    matches_at(s, chars.as_slice(), 0)
}

/// Whether `s` ends with `p`.
pub fn ends_with(s: &[char], p: &str) -> (r: bool)
    ensures
        r == finishes(s@, p@),
{
    let chars = chars_of(p);
    if chars.len() > s.len() {
        return false;
    }
    proof {
        let at = s@.len() - p@.len();
        assert(s@.subrange(at, at + p@.len()) =~= s@.skip(at));
    }
    matches_at(s, chars.as_slice(), s.len() - chars.len())
}

/// Whether `s` is the string `p`.
pub fn equals(s: &[char], p: &str) -> (r: bool)
    ensures
        r == (s@ == p@),
{
    let chars = chars_of(p);
    same(s, chars.as_slice())
}

/// The position of the first `c` in `s`.
pub open spec fn find_char(s: Seq<char>, c: char) -> Option<int> {
    find(s, seq![c])
}

/// Finds the first `c`.
pub fn position_char(s: &[char], c: char) -> (r: Option<usize>)
    ensures
        match r {
            Some(i) => find_char(s@, c) == Some(i as int) && i < s@.len() && s@[i as int] == c,
            None => find_char(s@, c) is None && !s@.contains(c),
        },
{
    let mut one: Vec<char> = Vec::new();
    one.push(c);
    proof {
        assert(one@ =~= seq![c]);
        lemma_find_from(s@, seq![c], 0);
        assert forall|j: int| 0 <= j < s@.len() && s@[j] == c implies stands_at(s@, seq![c], j) by {
            assert(s@.subrange(j, j + 1) =~= seq![c]);
        }
        assert forall|j: int| stands_at(s@, seq![c], j) implies s@[j] == c by {
            assert(s@.subrange(j, j + 1)[0] == seq![c][0]);
        }
    }
    position(s, one.as_slice())
}

// ---------------------------------------------------------------------
// Splitting and joining
// ---------------------------------------------------------------------

/// The pieces of a text between the occurrences of a separator.
pub open spec fn split_char(s: Seq<char>, c: char) -> Seq<Seq<char>>
    decreases s.len(),
{
    match find_char(s, c) {
        Some(i) => if 0 <= i < s.len() {
            seq![s.take(i)] + split_char(s.skip(i + 1), c)
        } else {
            seq![s]
        },
        None => seq![s],
    }
}

/// A line without the carriage return that ended it.
pub open spec fn without_return(s: Seq<char>) -> Seq<char> {
    if s.len() > 0 && s.last() == '\r' {
        s.drop_last()
    } else {
        s
    }
}

/// The lines of a text. A line ends with a line feed, which may follow a
/// carriage return; the end of the text ends the last line too.
pub open spec fn lines(s: Seq<char>) -> Seq<Seq<char>>
    decreases s.len(),
{
    if s.len() == 0 {
        Seq::empty()
    } else {
        match find_char(s, '\n') {
            Some(i) => if 0 <= i < s.len() {
                seq![without_return(s.take(i))] + lines(s.skip(i + 1))
            } else {
                seq![s]
            },
            None => seq![s],
        }
    }
}

/// The number of leading characters that are not white space.
pub open spec fn word_len(s: Seq<char>) -> nat
    decreases s.len(),
{
    if s.len() > 0 && !white(s[0]) {
        1 + word_len(s.skip(1))
    } else {
        0
    }
}

/// A word ends at the first white space.
pub proof fn lemma_word_len(s: Seq<char>)
    ensures
        word_len(s) <= s.len(),
        forall|j: int| 0 <= j < word_len(s) ==> !white(s[j]),
        word_len(s) < s.len() ==> white(s[word_len(s) as int]),
    decreases s.len(),
{
    if s.len() > 0 && !white(s[0]) {
        lemma_word_len(s.skip(1));
        assert forall|j: int| 0 <= j < word_len(s) implies !white(s[j]) by {
            if j > 0 {
                assert(s.skip(1)[j - 1] == s[j]);
            }
        }
    }
}

/// Trimming the start drops leading white space and nothing else.
pub proof fn lemma_trimmed_start(s: Seq<char>)
    ensures
        trimmed_start(s).len() <= s.len(),
        trimmed_start(s).len() > 0 ==> !white(trimmed_start(s)[0]),
        trimmed_start(s) == s.skip(s.len() - trimmed_start(s).len()),
    decreases s.len(),
{
    if s.len() > 0 && white(s[0]) {
        lemma_trimmed_start(s.skip(1));
        let t = trimmed_start(s);
        assert(s.skip(1).skip(s.skip(1).len() - t.len()) =~= s.skip(s.len() - t.len()));
    } else {
        assert(s.skip(0) =~= s);
    }
}

/// The words of a text: its longest runs without white space.
pub open spec fn words(s: Seq<char>) -> Seq<Seq<char>>
    decreases s.len(),
{
    let t = trimmed_start(s);
    if 0 < t.len() <= s.len() && 0 < word_len(t) <= t.len() {
        seq![t.take(word_len(t) as int)] + words(t.skip(word_len(t) as int))
    } else {
        Seq::empty()
    }
}

/// The view of a list of texts.
pub open spec fn texts(v: Seq<Vec<char>>) -> Seq<Seq<char>> {
    Seq::new(v.len(), |i: int| v[i]@)
}

/// A copy of the given characters.
pub fn copy_of(s: &[char]) -> (out: Vec<char>)
    ensures
        out@ == s@,
{
    let mut out: Vec<char> = Vec::new();
    let mut i: usize = 0;
    while i < s.len()
        invariant
            i <= s@.len(),
            out@ == s@.take(i as int),
        decreases s@.len() - i,
    {
        out.push(s[i]);
        i += 1;
    }
    out
}

/// Splits a text at every `c`.
pub fn split_at_char(s: &[char], c: char) -> (out: Vec<Vec<char>>)
    ensures
        texts(out@) == split_char(s@, c),
        out@.len() > 0,
{
    let mut out: Vec<Vec<char>> = Vec::new();
    let mut rest: &[char] = s;
    proof {
        assert(texts(out@) + split_char(rest@, c) =~= split_char(s@, c));
    }
    loop
        invariant
            texts(out@) + split_char(rest@, c) == split_char(s@, c),
        decreases rest@.len(),
    {
        match position_char(rest, c) {
            Some(i) => {
                let total: usize = rest.len();
                let piece = copy_of(vstd::slice::slice_subrange(rest, 0, i));
                let next = vstd::slice::slice_subrange(rest, i + 1, total);
                let ghost before = texts(out@);
                out.push(piece);
                proof {
                    assert(rest@.subrange(0, i as int) =~= rest@.take(i as int));
                    assert(next@ =~= rest@.skip(i + 1));
                    assert(texts(out@) =~= before.push(piece@));
                    assert(before + (seq![piece@] + split_char(next@, c)) =~= texts(out@)
                        + split_char(next@, c));
                }
                rest = next;
            },
            None => {
                let piece = copy_of(rest);
                let ghost before = texts(out@);
                out.push(piece);
                proof {
                    assert(texts(out@) =~= before.push(piece@));
                    assert(before + seq![piece@] =~= texts(out@));
                }
                return out;
            },
        }
    }
}

/// Splits a text into its lines.
pub fn lines_of(s: &[char]) -> (out: Vec<Vec<char>>)
    ensures
        texts(out@) == lines(s@),
{
    let mut out: Vec<Vec<char>> = Vec::new();
    let mut rest: &[char] = s;
    proof {
        assert(texts(out@) + lines(rest@) =~= lines(s@));
    }
    while rest.len() > 0
        invariant
            texts(out@) + lines(rest@) == lines(s@),
        decreases rest@.len(),
    {
        match position_char(rest, '\n') {
            Some(i) => {
                let n: usize = if i > 0 && rest[i - 1] == '\r' {
                    i - 1
                } else {
                    i
                };
                let piece = copy_of(vstd::slice::slice_subrange(rest, 0, n));
                let total: usize = rest.len();
                let next = vstd::slice::slice_subrange(rest, i + 1, total);
                let ghost before = texts(out@);
                out.push(piece);
                proof {
                    let whole = rest@.take(i as int);
                    assert(piece@ =~= without_return(whole));
                    assert(next@ =~= rest@.skip(i + 1));
                    assert(texts(out@) =~= before.push(piece@));
                    assert(before + (seq![piece@] + lines(next@)) =~= texts(out@) + lines(next@));
                }
                rest = next;
            },
            None => {
                let piece = copy_of(rest);
                let next = vstd::slice::slice_subrange(rest, rest.len(), rest.len());
                let ghost before = texts(out@);
                out.push(piece);
                proof {
                    assert(texts(out@) =~= before.push(piece@));
                    assert(before + seq![piece@] =~= texts(out@) + lines(next@));
                }
                rest = next;
            },
        }
    }
    proof {
        assert(texts(out@) + lines(rest@) =~= texts(out@));
    }
    out
}

/// Counts the leading characters that are not white space.
pub fn word_length(s: &[char]) -> (n: usize)
    ensures
        n == word_len(s@),
        n <= s@.len(),
{
    let mut i: usize = 0;
    proof {
        assert(s@.skip(0) =~= s@);
    }
    while i < s.len() && !is_white(s[i])
        invariant
            i <= s@.len(),
            word_len(s@) == i + word_len(s@.skip(i as int)),
        decreases s@.len() - i,
    {
        proof {
            assert(s@.skip(i as int).skip(1) =~= s@.skip(i + 1));
        }
        i += 1;
    }
    i
}

/// Splits a text into its words.
pub fn words_of(s: &[char]) -> (out: Vec<Vec<char>>)
    ensures
        texts(out@) == words(s@),
{
    let mut out: Vec<Vec<char>> = Vec::new();
    let mut rest: &[char] = s;
    proof {
        assert(texts(out@) + words(rest@) =~= words(s@));
    }
    loop
        invariant
            texts(out@) + words(rest@) == words(s@),
        decreases rest@.len(),
    {
        let t = trim_start(rest);
        proof {
            lemma_trimmed_start(rest@);
            lemma_word_len(t@);
        }
        if t.len() == 0 {
            proof {
                assert(texts(out@) + words(rest@) =~= texts(out@));
            }
            return out;
        }
        let n: usize = word_length(t);
        let piece = copy_of(vstd::slice::slice_subrange(t, 0, n));
        let next = vstd::slice::slice_subrange(t, n, t.len());
        let ghost before = texts(out@);
        out.push(piece);
        proof {
            assert(piece@ =~= t@.take(n as int));
            assert(next@ =~= t@.skip(n as int));
            assert(texts(out@) =~= before.push(piece@));
            assert(before + (seq![piece@] + words(next@)) =~= texts(out@) + words(next@));
        }
        rest = next;
    }
}

/// The pieces of a text between the occurrences of a separator.
pub open spec fn split_text(s: Seq<char>, sep: Seq<char>) -> Seq<Seq<char>>
    decreases s.len(),
{
    match find(s, sep) {
        Some(i) => if 0 <= i && sep.len() > 0 && i + sep.len() <= s.len() {
            seq![s.take(i)] + split_text(s.skip(i + sep.len()), sep)
        } else {
            seq![s]
        },
        None => seq![s],
    }
}

/// There is always a first part.
pub proof fn lemma_split_text_len(s: Seq<char>, sep: Seq<char>)
    ensures
        split_text(s, sep).len() > 0,
{
}

/// Splits a text at every occurrence of a separator.
pub fn split_at_text(s: &[char], sep: &str) -> (out: Vec<Vec<char>>)
    requires
        sep@.len() > 0,
    ensures
        texts(out@) == split_text(s@, sep@),
{
    let mut out: Vec<Vec<char>> = Vec::new();
    let mut rest: &[char] = s;
    let sep_chars = chars_of(sep);
    proof {
        assert(texts(out@) + split_text(rest@, sep@) =~= split_text(s@, sep@));
    }
    loop
        invariant
            sep_chars@ == sep@,
            sep@.len() > 0,
            texts(out@) + split_text(rest@, sep@) == split_text(s@, sep@),
        decreases rest@.len(),
    {
        let total: usize = rest.len();
        match position(rest, sep_chars.as_slice()) {
            Some(i) => {
                let piece = copy_of(vstd::slice::slice_subrange(rest, 0, i));
                let next = vstd::slice::slice_subrange(rest, i + sep_chars.len(), total);
                let ghost before = texts(out@);
                out.push(piece);
                proof {
                    assert(piece@ =~= rest@.take(i as int));
                    assert(next@ =~= rest@.skip(i + sep@.len()));
                    assert(texts(out@) =~= before.push(piece@));
                    assert(before + (seq![piece@] + split_text(next@, sep@)) =~= texts(out@)
                        + split_text(next@, sep@));
                }
                rest = next;
            },
            None => {
                let piece = copy_of(rest);
                let ghost before = texts(out@);
                out.push(piece);
                proof {
                    assert(texts(out@) =~= before.push(piece@));
                    assert(before + seq![piece@] =~= texts(out@));
                }
                return out;
            },
        }
    }
}

/// A text with every occurrence of one character exchanged for a text.
pub open spec fn replaced(s: Seq<char>, c: char, by: Seq<char>) -> Seq<char>
    decreases s.len(),
{
    if s.len() == 0 {
        Seq::empty()
    } else {
        replaced(s.drop_last(), c, by) + (if s.last() == c {
            by
        } else {
            seq![s.last()]
        })
    }
}

/// Exchanges every `c` for `by`.
pub fn replace_char(s: &[char], c: char, by: &str) -> (out: Vec<char>)
    ensures
        out@ == replaced(s@, c, by@),
{
    let by_chars = chars_of(by);
    let mut out: Vec<char> = Vec::new();
    let mut i: usize = 0;
    while i < s.len()
        invariant
            i <= s@.len(),
            by_chars@ == by@,
            out@ == replaced(s@.take(i as int), c, by@),
        decreases s@.len() - i,
    {
        proof {
            assert(s@.take(i + 1).drop_last() =~= s@.take(i as int));
        }
        if s[i] == c {
            append(&mut out, by_chars.as_slice());
        } else {
            out.push(s[i]);
            proof {
                let before = replaced(s@.take(i as int), c, by@);
                assert(before.push(s@[i as int]) =~= before + seq![s@[i as int]]);
            }
        }
        i += 1;
    }
    proof {
        assert(s@.take(i as int) =~= s@);
    }
    out
}

/// Appends characters to a text.
pub fn append(out: &mut Vec<char>, more: &[char])
    ensures
        final(out)@ == old(out)@ + more@,
{
    let mut i: usize = 0;
    proof {
        assert(old(out)@ + more@.take(0) =~= old(out)@);
    }
    while i < more.len()
        invariant
            i <= more@.len(),
            out@ == old(out)@ + more@.take(i as int),
        decreases more@.len() - i,
    {
        out.push(more[i]);
        proof {
            assert(old(out)@ + more@.take(i + 1) =~= (old(out)@ + more@.take(i as int)).push(
                more@[i as int],
            ));
        }
        i += 1;
    }
    proof {
        assert(more@.take(i as int) =~= more@);
    }
}

/// Appends a string to a text.
pub fn append_str(out: &mut Vec<char>, more: &str)
    ensures
        final(out)@ == old(out)@ + more@,
{
    let chars = chars_of(more);
    append(out, chars.as_slice());
}

/// Texts joined with a separator between them.
pub open spec fn joined(parts: Seq<Seq<char>>, sep: Seq<char>) -> Seq<char>
    decreases parts.len(),
{
    if parts.len() == 0 {
        Seq::empty()
    } else if parts.len() == 1 {
        parts[0]
    } else {
        joined(parts.drop_last(), sep) + sep + parts.last()
    }
}

/// Joins texts with a separator between them.
pub fn join(parts: &Vec<Vec<char>>, sep: &str) -> (out: Vec<char>)
    ensures
        out@ == joined(texts(parts@), sep@),
{
    let sep_chars = chars_of(sep);
    let mut out: Vec<char> = Vec::new();
    let mut i: usize = 0;
    while i < parts.len()
        invariant
            i <= parts@.len(),
            sep_chars@ == sep@,
            out@ == joined(texts(parts@).take(i as int), sep@),
        decreases parts@.len() - i,
    {
        proof {
            let t = texts(parts@);
            assert(t.take(i + 1).drop_last() =~= t.take(i as int));
            assert(t.take(i + 1).last() == parts@[i as int]@);
        }
        if i > 0 {
            append(&mut out, sep_chars.as_slice());
        }
        append(&mut out, parts[i].as_slice());
        proof {
            if i == 0 {
                assert(out@ =~= parts@[0]@);
            }
        }
        i += 1;
    }
    proof {
        assert(texts(parts@).take(i as int) =~= texts(parts@));
    }
    out
}

/// An ASCII letter in lower case; any other character as it is.
pub open spec fn ascii_lower_char(c: char) -> char {
    if 'A' <= c && c <= 'Z' {
        ((c as u32) + 32) as char
    } else {
        c
    }
}

/// A text with its ASCII letters in lower case.
pub open spec fn ascii_lower(s: Seq<char>) -> Seq<char> {
    s.map_values(|c: char| ascii_lower_char(c))
}

/// Turns the ASCII letters of a text to lower case.
pub fn to_ascii_lower(s: &[char]) -> (out: Vec<char>)
    ensures
        out@ == ascii_lower(s@),
{
    let mut out: Vec<char> = Vec::new();
    let mut i: usize = 0;
    while i < s.len()
        invariant
            i <= s@.len(),
            out@ == ascii_lower(s@).take(i as int),
        decreases s@.len() - i,
    {
        let c = s[i];
        let lower: char = if 'A' <= c && c <= 'Z' {
            (c as u8 + 32) as char
        } else {
            c
        };
        out.push(lower);
        proof {
            assert(out@ =~= ascii_lower(s@).take(i + 1));
        }
        i += 1;
    }
    proof {
        assert(ascii_lower(s@).take(i as int) =~= ascii_lower(s@));
    }
    out
}

// ---------------------------------------------------------------------
// Byte positions in the UTF-8 form of a text
// ---------------------------------------------------------------------

/// The number of bytes that a character takes in UTF-8.
pub open spec fn width(c: char) -> nat {
    let u = c as u32;
    if u < 0x80 {
        1
    } else if u < 0x800 {
        2
    } else if u < 0x10000 {
        3
    } else {
        4
    }
}

/// The number of bytes that a text takes in UTF-8.
pub open spec fn byte_len(s: Seq<char>) -> nat
    decreases s.len(),
{
    if s.len() == 0 {
        0
    } else {
        byte_len(s.drop_last()) + width(s.last())
    }
}

/// The number of characters in the first `bytes` bytes of a text, unless
/// the text is shorter or that position lies inside a character.
pub open spec fn index_at_byte(s: Seq<char>, bytes: int) -> Option<int>
    decreases s.len(),
{
    if bytes <= 0 {
        if bytes == 0 {
            Some(0)
        } else {
            None
        }
    } else if s.len() == 0 {
        None
    } else {
        match index_at_byte(s.skip(1), bytes - width(s[0])) {
            Some(i) => Some(i + 1),
            None => None,
        }
    }
}

/// The number of bytes that a character takes in UTF-8.
pub fn char_width(c: char) -> (n: usize)
    ensures
        n == width(c),
{
    let u: u32 = c as u32;
    if u < 0x80 {
        1
    } else if u < 0x800 {
        2
    } else if u < 0x10000 {
        3
    } else {
        4
    }
}

/// Whether a text takes at least `limit` bytes in UTF-8.
pub fn takes_bytes(s: &[char], limit: usize) -> (r: bool)
    ensures
        r == (byte_len(s@) >= limit),
{
    let mut left: usize = limit;
    let mut i: usize = 0;
    while i < s.len()
        invariant
            i <= s@.len(),
            left <= limit,
            left > 0 ==> limit == left + byte_len(s@.take(i as int)),
            left == 0 ==> limit <= byte_len(s@.take(i as int)),
        decreases s@.len() - i,
    {
        let w: usize = char_width(s[i]);
        proof {
            assert(s@.take(i + 1).drop_last() =~= s@.take(i as int));
        }
        left = if w >= left {
            0
        } else {
            left - w
        };
        i += 1;
    }
    proof {
        assert(s@.take(i as int) =~= s@);
    }
    left == 0
}

/// Finds how many characters the first `bytes` bytes hold.
pub fn char_index(s: &[char], bytes: u128) -> (r: Option<usize>)
    ensures
        match r {
            Some(i) => index_at_byte(s@, bytes as int) == Some(i as int) && i <= s@.len(),
            None => index_at_byte(s@, bytes as int) is None,
        },
{
    let mut left: u128 = bytes;
    let mut i: usize = 0;
    proof {
        assert(s@.skip(0) =~= s@);
    }
    while left > 0
        invariant
            i <= s@.len(),
            index_at_byte(s@, bytes as int) == (match index_at_byte(s@.skip(i as int), left as int) {
                Some(k) => Some(k + i),
                None => None,
            }),
        decreases left,
    {
        if i == s.len() {
            return None;
        }
        let w: usize = char_width(s[i]);
        proof {
            assert(s@.skip(i as int).skip(1) =~= s@.skip(i + 1));
        }
        if w as u128 > left {
            proof {
                assert(index_at_byte(s@.skip(i + 1), left - w) is None);
            }
            return None;
        }
        left -= w as u128;
        i += 1;
    }
    Some(i)
}

/// The number of bytes before the first position of `p`, in UTF-8.
pub open spec fn find_byte(s: Seq<char>, p: Seq<char>) -> Option<int> {
    match find(s, p) {
        Some(i) => Some(byte_len(s.take(i)) as int),
        None => None,
    }
}

/// Counts the bytes of a text.
pub fn bytes_in(s: &[char]) -> (n: u128)
    ensures
        n == byte_len(s@),
        n <= 4 * s@.len(),
{
    let mut total: u128 = 0;
    let mut i: usize = 0;
    while i < s.len()
        invariant
            i <= s@.len(),
            total == byte_len(s@.take(i as int)),
            total <= 4 * i,
        decreases s@.len() - i,
    {
        let w: usize = char_width(s[i]);
        proof {
            assert(s@.take(i + 1).drop_last() =~= s@.take(i as int));
        }
        total += w as u128;
        i += 1;
    }
    proof {
        assert(s@.take(i as int) =~= s@);
    }
    total
}

// ---------------------------------------------------------------------
// Numbers
// ---------------------------------------------------------------------

/// Whether a character is an ASCII digit.
pub open spec fn digit(c: char) -> bool {
    '0' <= c && c <= '9'
}

/// The number of leading ASCII digits.
pub open spec fn digits_len(s: Seq<char>) -> nat
    decreases s.len(),
{
    if s.len() > 0 && digit(s[0]) {
        1 + digits_len(s.skip(1))
    } else {
        0
    }
}

/// The number that a run of ASCII digits stands for.
pub open spec fn decimal_value(s: Seq<char>) -> nat
    decreases s.len(),
{
    if s.len() == 0 {
        0
    } else {
        10 * decimal_value(s.drop_last()) + (s.last() as u32 - 48) as nat
    }
}

/// The value of a run of ASCII digits read as a 32-bit signed number. An
/// empty run, and a number out of range, have none.
pub open spec fn digits_as_i32(s: Seq<char>) -> Option<i32> {
    if s.len() == 0 || decimal_value(s) > i32::MAX {
        None
    } else {
        Some(decimal_value(s) as i32)
    }
}

/// The first digits of a number give no more than the number.
pub proof fn lemma_decimal_prefix(s: Seq<char>, i: int)
    requires
        0 <= i <= s.len(),
    ensures
        decimal_value(s.take(i)) <= decimal_value(s),
    decreases s.len(),
{
    if i == s.len() {
        assert(s.take(i) =~= s);
    } else {
        lemma_decimal_prefix(s.drop_last(), i);
        assert(s.drop_last().take(i) =~= s.take(i));
    }
}

/// Counts the leading ASCII digits.
pub fn digits_length(s: &[char]) -> (n: usize)
    ensures
        n == digits_len(s@),
        n <= s@.len(),
        forall|j: int| 0 <= j < n ==> digit(s@[j]),
{
    let mut i: usize = 0;
    proof {
        assert(s@.skip(0) =~= s@);
    }
    while i < s.len() && '0' <= s[i] && s[i] <= '9'
        invariant
            i <= s@.len(),
            digits_len(s@) == i + digits_len(s@.skip(i as int)),
            forall|j: int| 0 <= j < i ==> digit(s@[j]),
        decreases s@.len() - i,
    {
        proof {
            assert(s@.skip(i as int).skip(1) =~= s@.skip(i + 1));
        }
        i += 1;
    }
    i
}

/// Reads a run of ASCII digits as a 32-bit signed number.
pub fn read_i32(s: &[char]) -> (r: Option<i32>)
    requires
        forall|j: int| 0 <= j < s@.len() ==> digit(#[trigger] s@[j]),
    ensures
        r == digits_as_i32(s@),
{
    if s.len() == 0 {
        return None;
    }
    let mut value: i64 = 0;
    let mut i: usize = 0;
    while i < s.len()
        invariant
            i <= s@.len(),
            forall|j: int| 0 <= j < s@.len() ==> digit(#[trigger] s@[j]),
            0 <= value <= i32::MAX,
            value == decimal_value(s@.take(i as int)),
        decreases s@.len() - i,
    {
        let d: i64 = (s[i] as u32 - 48) as i64;
        proof {
            assert(s@.take(i + 1).drop_last() =~= s@.take(i as int));
            lemma_decimal_prefix(s@, i + 1);
        }
        value = 10 * value + d;
        if value > 2147483647 {
            return None;
        }
        i += 1;
    }
    proof {
        assert(s@.take(i as int) =~= s@);
    }
    Some(value as i32)
}

/// The number of trailing ASCII digits.
pub open spec fn trailing_digits_len(s: Seq<char>) -> nat
    decreases s.len(),
{
    if s.len() > 0 && digit(s.last()) {
        1 + trailing_digits_len(s.drop_last())
    } else {
        0
    }
}

/// The digits at the end of a text.
pub open spec fn trailing_digits(s: Seq<char>) -> Seq<char> {
    s.skip(s.len() - trailing_digits_len(s))
}

/// Finds the digits at the end of a text.
pub fn end_digits<'a>(s: &'a [char]) -> (out: &'a [char])
    ensures
        out@ == trailing_digits(s@),
        forall|j: int| 0 <= j < out@.len() ==> digit(#[trigger] out@[j]),
{
    let mut n: usize = s.len();
    proof {
        assert(s@.take(n as int) =~= s@);
    }
    while n > 0 && '0' <= s[n - 1] && s[n - 1] <= '9'
        invariant
            n <= s@.len(),
            trailing_digits_len(s@) == s@.len() - n + trailing_digits_len(s@.take(n as int)),
            forall|j: int| n <= j < s@.len() ==> digit(#[trigger] s@[j]),
        decreases n,
    {
        proof {
            assert(s@.take(n as int).drop_last() =~= s@.take(n - 1));
        }
        n -= 1;
    }
    let out = vstd::slice::slice_subrange(s, n, s.len());
    proof {
        assert(out@ =~= s@.skip(n as int));
    }
    out
}

/// A number in decimal notation.
pub open spec fn decimal(n: nat) -> Seq<char>
    decreases n,
{
    if n < 10 {
        seq![(48 + n) as char]
    } else {
        decimal(n / 10).push((48 + n % 10) as char)
    }
}

/// A signed number in decimal notation.
pub open spec fn signed_decimal(n: int) -> Seq<char> {
    if n < 0 {
        seq!['-'] + decimal((-n) as nat)
    } else {
        decimal(n as nat)
    }
}

/// Writes a number in decimal notation.
pub fn write_u64(n: u64) -> (out: Vec<char>)
    ensures
        out@ == decimal(n as nat),
    decreases n,
{
    let d: u8 = (n % 10) as u8;
    let c: char = (48 + d) as char;
    let mut out: Vec<char> = if n < 10 {
        Vec::new()
    } else {
        write_u64(n / 10)
    };
    out.push(c);
    proof {
        if n < 10 {
            assert(out@ =~= seq![c]);
        }
    }
    out
}

/// Writes a signed number in decimal notation.
pub fn write_i64(n: i64) -> (out: Vec<char>)
    ensures
        out@ == signed_decimal(n as int),
{
    if n < 0 {
        let magnitude: u64 = (-(n + 1)) as u64 + 1;
        let digits = write_u64(magnitude);
        let mut out: Vec<char> = Vec::new();
        out.push('-');
        append(&mut out, digits.as_slice());
        proof {
            assert(out@ =~= seq!['-'] + decimal((-n) as nat));
        }
        out
    } else {
        write_u64(n as u64)
    }
}

} // verus!
