//! What holds of texts that are searched, split, joined and trimmed.

use vstd::prelude::*;
use crate::order;
use crate::text;

verus! {

/// Whether a text stands between two separators of another, or between one
/// and its start or end, and holds none itself.
pub open spec fn is_piece(s: Seq<char>, c: char, part: Seq<char>) -> bool {
    !part.contains(c) && exists|a: Seq<char>, b: Seq<char>|
        #![trigger a + part + b]
        s == a + part + b && (a.len() == 0 || a.last() == c) && (b.len() == 0 || b[0] == c)
}

/// The first place of a character, and what stands around it.
pub proof fn lemma_first_char(s: Seq<char>, c: char)
    ensures
        match text::find_char(s, c) {
            Some(i) => 0 <= i < s.len() && s[i] == c && !s.take(i).contains(c) && s == s.take(i)
                + seq![c] + s.skip(i + 1),
            None => !s.contains(c),
        },
{
    text::lemma_find_from(s, seq![c], 0);
    match text::find_char(s, c) {
        Some(i) => {
            assert(s.subrange(i, i + 1)[0] == seq![c][0]);
            if s.take(i).contains(c) {
                let j = choose|j: int| 0 <= j < i && s.take(i)[j] == c;
                assert(s.subrange(j, j + 1) =~= seq![c]);
                assert(text::stands_at(s, seq![c], j));
            }
            assert(s =~= s.take(i) + seq![c] + s.skip(i + 1));
        },
        None => {
            if s.contains(c) {
                let j = choose|j: int| 0 <= j < s.len() && s[j] == c;
                assert(s.subrange(j, j + 1) =~= seq![c]);
                assert(text::stands_at(s, seq![c], j));
            }
        },
    }
}

proof fn lemma_piece_of_rest(head: Seq<char>, c: char, rest: Seq<char>, part: Seq<char>)
    requires
        !head.contains(c),
    ensures
        is_piece(head + seq![c] + rest, c, part) <==> part == head || is_piece(rest, c, part),
{
    let s = head + seq![c] + rest;
    let n = head.len() as int;
    if part == head {
        let b = seq![c] + rest;
        assert(s =~= Seq::empty() + part + b);
    } else if is_piece(rest, c, part) {
        let (a, b) = choose|a: Seq<char>, b: Seq<char>|
            #![trigger a + part + b]
            rest == a + part + b && (a.len() == 0 || a.last() == c) && (b.len() == 0 || b[0] == c);
        let front = head + seq![c] + a;
        assert(s =~= front + part + b);
        assert(front.last() == c);
    }
    if is_piece(s, c, part) && part != head {
        let (a, b) = choose|a: Seq<char>, b: Seq<char>|
            #![trigger a + part + b]
            s == a + part + b && (a.len() == 0 || a.last() == c) && (b.len() == 0 || b[0] == c);
        if a.len() == 0 {
            if part.len() > n {
                assert(part[n] == s[n]);
                assert(part.contains(c));
            } else if part.len() < n {
                assert(b[0] == s[part.len() as int]);
                assert(head[part.len() as int] == c);
                assert(head.contains(c));
            } else {
                assert forall|j: int| 0 <= j < n implies part[j] == head[j] by {
                    assert(s[j] == head[j]);
                    assert((a + part + b)[j] == part[j]);
                }
                assert(part =~= head);
            }
            assert(false);
        } else {
            let k = a.len() - 1;
            assert(s[k] == c);
            if k < n {
                assert(head[k] == c);
                assert(head.contains(c));
            }
            let tail = a.skip(n + 1);
            assert(rest =~= s.skip(n + 1));
            assert(rest =~= tail + part + b);
            if tail.len() > 0 {
                assert(tail.last() == a.last());
            }
        }
    }
}

/// A text is made of its pieces with the separator between them, and they
/// are all that stands between separators.
pub proof fn law_split_gives_the_pieces(s: Seq<char>, c: char)
    ensures
        text::joined(text::split_char(s, c), seq![c]) == s,
        forall|part: Seq<char>| #[trigger]
            text::split_char(s, c).contains(part) <==> is_piece(s, c, part),
    decreases s.len(),
{
    lemma_first_char(s, c);
    match text::find_char(s, c) {
        Some(i) => {
            let head = s.take(i);
            let rest = s.skip(i + 1);
            law_split_gives_the_pieces(rest, c);
            let more = text::split_char(rest, c);
            let all = text::split_char(s, c);
            assert(all == seq![head] + more);
            lemma_joined_front(head, more, seq![c]);
            assert forall|part: Seq<char>| #[trigger] all.contains(part) <==> is_piece(
                s,
                c,
                part,
            ) by {
                lemma_piece_of_rest(head, c, rest, part);
                assert(all.contains(part) <==> part == head || more.contains(part)) by {
                    assert(all[0] == head);
                    if more.contains(part) {
                        let k = choose|k: int| 0 <= k < more.len() && more[k] == part;
                        assert(all[k + 1] == part);
                    }
                    if all.contains(part) && part != head {
                        let k = choose|k: int| 0 <= k < all.len() && all[k] == part;
                        assert(more[k - 1] == part);
                    }
                }
            }
        },
        None => {
            let all = text::split_char(s, c);
            assert(all =~= seq![s]);
            assert forall|part: Seq<char>| #[trigger] all.contains(part) <==> is_piece(
                s,
                c,
                part,
            ) by {
                if all.contains(part) {
                    assert(s =~= Seq::empty() + part + Seq::empty());
                }
                if is_piece(s, c, part) {
                    let (a, b) = choose|a: Seq<char>, b: Seq<char>|
                        #![trigger a + part + b]
                        s == a + part + b && (a.len() == 0 || a.last() == c) && (b.len() == 0 || b[0]
                            == c);
                    if a.len() > 0 {
                        assert(s[a.len() - 1] == c);
                    }
                    if b.len() > 0 {
                        assert(s[(a.len() + part.len()) as int] == c);
                    }
                    assert(s =~= part);
                    assert(all[0] == part);
                }
            }
        },
    }
}

/// Joining puts the separator behind the first part.
pub proof fn lemma_joined_front(first: Seq<char>, more: Seq<Seq<char>>, sep: Seq<char>)
    ensures
        more.len() > 0 ==> text::joined(seq![first] + more, sep) == first + sep + text::joined(
            more,
            sep,
        ),
    decreases more.len(),
{
    let all = seq![first] + more;
    if more.len() == 1 {
        assert(all.drop_last() =~= seq![first]);
        assert(all.last() == more[0]);
        assert(text::joined(seq![first], sep) == first);
        assert(text::joined(all, sep) == text::joined(all.drop_last(), sep) + sep + all.last());
    } else if more.len() > 1 {
        lemma_joined_front(first, more.drop_last(), sep);
        assert(all.drop_last() =~= seq![first] + more.drop_last());
        assert(text::joined(all, sep) =~= first + sep + text::joined(more, sep));
    }
}

/// A text occurs in another exactly where that is it with something before
/// and something behind; it begins or ends with it where nothing is before
/// or behind.
pub proof fn law_occurrences(s: Seq<char>, p: Seq<char>)
    ensures
        text::occurs(s, p) <==> exists|a: Seq<char>, b: Seq<char>|
            #![trigger a + p + b]
            s == a + p + b,
        text::begins(s, p) <==> exists|b: Seq<char>| s == #[trigger] (p + b),
        text::finishes(s, p) <==> exists|a: Seq<char>| s == #[trigger] (a + p),
{
    if text::occurs(s, p) {
        let i = choose|i: int| text::stands_at(s, p, i);
        assert(s =~= s.take(i) + p + s.skip(i + p.len()));
    }
    if exists|a: Seq<char>, b: Seq<char>| #![trigger a + p + b] s == a + p + b {
        let (a, b) = choose|a: Seq<char>, b: Seq<char>| #![trigger a + p + b] s == a + p + b;
        assert(s.subrange(a.len() as int, (a.len() + p.len()) as int) =~= p);
        assert(text::stands_at(s, p, a.len() as int));
    }
    if text::begins(s, p) {
        assert(s =~= p + s.skip(p.len() as int));
    }
    if exists|b: Seq<char>| s == #[trigger] (p + b) {
        assert(s.take(p.len() as int) =~= p);
    }
    if text::finishes(s, p) {
        assert(s =~= s.take(s.len() - p.len()) + p);
    }
    if exists|a: Seq<char>| s == #[trigger] (a + p) {
        assert(s.skip(s.len() - p.len()) =~= p);
    }
}

/// A text is found in another at its first place: the one in front of which
/// it does not occur.
pub proof fn law_first_place(a: Seq<char>, p: Seq<char>, b: Seq<char>)
    requires
        p.len() > 0,
        !text::occurs(a + p.drop_last(), p),
    ensures
        text::find(a + p + b, p) == Some(a.len() as int),
        (a + p + b).take(a.len() as int) == a,
        (a + p + b).skip((a.len() + p.len()) as int) == b,
{
    let s = a + p + b;
    let n = a.len() as int;
    assert(s.take(n) =~= a);
    assert(s.skip(n + p.len()) =~= b);
    assert(s.subrange(n, n + p.len()) =~= p);
    assert(text::stands_at(s, p, n));
    text::lemma_find_from(s, p, 0);
    let i = text::find(s, p)->0;
    if i < n {
        let front = a + p.drop_last();
        let m = i + p.len();
        assert(s.take(front.len() as int) =~= front);
        assert(front.subrange(i, m) =~= s.subrange(i, m));
        assert(text::stands_at(front, p, i));
        assert(false);
    }
}

/// Lowering changes the letters from `A` to `Z` alone, each to the one 32
/// places on, and keeps every other character where it is.
pub proof fn law_ascii_lower(s: Seq<char>, i: int)
    requires
        0 <= i < s.len(),
    ensures
        text::ascii_lower(s).len() == s.len(),
        65 <= s[i] as int <= 90 ==> text::ascii_lower(s)[i] as int == s[i] as int + 32,
        !(65 <= s[i] as int <= 90) ==> text::ascii_lower(s)[i] == s[i],
{
}

/// Trimming takes white space away at both ends and nothing else: what is
/// left neither begins nor ends with white space.
pub proof fn law_trimming(s: Seq<char>)
    ensures
        ({
            let t = text::trimmed(s);
            &&& exists|a: Seq<char>, b: Seq<char>|
                #![trigger a + t + b]
                s == a + t + b && (forall|i: int| 0 <= i < a.len() ==> text::white(#[trigger] a[i]))
                    && (forall|i: int| 0 <= i < b.len() ==> text::white(#[trigger] b[i]))
            &&& t.len() > 0 ==> !text::white(t[0]) && !text::white(t.last())
        }),
{
    text::lemma_trimmed_start(s);
    let m = text::trimmed_start(s);
    let t = text::trimmed(s);
    lemma_trimmed_start_white(s);
    lemma_trimmed_end(m);
    let a = s.take(s.len() - m.len());
    let b = m.skip(t.len() as int);
    assert(s =~= a + t + b);
    if t.len() > 0 {
        assert(t[0] == m[0]);
    }
}

proof fn lemma_trimmed_start_white(s: Seq<char>)
    ensures
        forall|i: int|
            0 <= i < s.len() - text::trimmed_start(s).len() ==> text::white(#[trigger] s[i]),
    decreases s.len(),
{
    if s.len() > 0 && text::white(s[0]) {
        lemma_trimmed_start_white(s.skip(1));
        text::lemma_trimmed_start(s.skip(1));
        assert forall|i: int| 0 <= i < s.len() - text::trimmed_start(s).len() implies text::white(
            #[trigger] s[i],
        ) by {
            if i > 0 {
                assert(s.skip(1)[i - 1] == s[i]);
            }
        }
    }
}

proof fn lemma_trimmed_end(s: Seq<char>)
    ensures
        text::trimmed_end(s).len() <= s.len(),
        s.take(text::trimmed_end(s).len() as int) == text::trimmed_end(s),
        text::trimmed_end(s).len() > 0 ==> !text::white(text::trimmed_end(s).last()),
        forall|i: int| text::trimmed_end(s).len() <= i < s.len() ==> text::white(#[trigger] s[i]),
    decreases s.len(),
{
    if s.len() > 0 && text::white(s.last()) {
        lemma_trimmed_end(s.drop_last());
        let n = text::trimmed_end(s).len() as int;
        assert(s.take(n) =~= s.drop_last().take(n));
        assert forall|i: int| n <= i < s.len() implies text::white(#[trigger] s[i]) by {
            if i < s.len() - 1 {
                assert(s.drop_last()[i] == s[i]);
            }
        }
    } else {
        assert(s.take(s.len() as int) =~= s);
    }
}

/// White space is the tab, the line ends, the space, and the spaces and
/// separators beyond ASCII; no letter, digit or other sign of ASCII is.
pub proof fn law_white_space(c: char)
    ensures
        text::white(' '),
        text::white('\t'),
        text::white('\n'),
        text::white('\r'),
        c as u32 <= 127 && text::white(c) ==> c == ' ' || 9 <= c as u32 <= 13,
        c as u32 > 127 ==> (text::white(c) <==> (c as u32 == 0x85 || c as u32 == 0xA0 || c as u32
            == 0x1680 || 0x2000 <= c as u32 <= 0x200A || c as u32 == 0x2028 || c as u32 == 0x2029
            || c as u32 == 0x202F || c as u32 == 0x205F || c as u32 == 0x3000)),
{
}

/// A number written in decimal notation is read back as that number, and
/// written with digits alone, without a zero in front.
pub proof fn law_decimal_reads_back(n: nat)
    ensures
        text::decimal_value(text::decimal(n)) == n,
        text::decimal(n).len() > 0,
        forall|i: int|
            0 <= i < text::decimal(n).len() ==> '0' <= #[trigger] text::decimal(n)[i] <= '9',
        n > 0 ==> text::decimal(n)[0] != '0',
    decreases n,
{
    let d = text::decimal(n);
    if n < 10 {
        assert(d.drop_last() =~= Seq::empty());
        assert(d.last() as u32 == 48 + n);
        assert(text::decimal_value(d.drop_last()) == 0);
    } else {
        law_decimal_reads_back(n / 10);
        assert(d.drop_last() =~= text::decimal(n / 10));
        assert(d.last() as u32 == 48 + n % 10);
        assert(d[0] == text::decimal(n / 10)[0]);
        assert forall|i: int| 0 <= i < d.len() implies '0' <= #[trigger] d[i] <= '9' by {
            if i < d.len() - 1 {
                assert(d[i] == text::decimal(n / 10)[i]);
            }
        }
    }
}

/// Whether a text is a line: it holds no line feed, and no carriage return
/// ends it.
pub open spec fn is_line(s: Seq<char>) -> bool {
    !s.contains('\n') && (s.len() == 0 || s.last() != '\r')
}

/// A text has the lines that it was made of, whether a line feed or a
/// carriage return and a line feed ends them.
pub proof fn law_lines_read_back(line: Seq<char>, more: Seq<char>)
    requires
        is_line(line),
    ensures
        text::lines(line + seq!['\n'] + more) == seq![line] + text::lines(more),
        text::lines(line + seq!['\r', '\n'] + more) == seq![line] + text::lines(more),
        line.len() > 0 ==> text::lines(line) == seq![line],
        text::lines(Seq::empty()) == Seq::<Seq<char>>::empty(),
{
    lemma_line_taken(line, line, more);
    let returned = line + seq!['\r'];
    assert(!returned.contains('\n')) by {
        if returned.contains('\n') {
            let j = choose|j: int| 0 <= j < returned.len() && returned[j] == '\n';
            assert(line[j] == '\n');
        }
    }
    assert(text::without_return(returned) =~= line);
    lemma_line_taken(returned, line, more);
    assert(line + seq!['\r', '\n'] + more =~= returned + seq!['\n'] + more);
    lemma_first_char(line, '\n');
    match text::find_char(line, '\n') {
        Some(i) => {
            assert(line.contains('\n'));
        },
        None => {},
    }
}

proof fn lemma_line_taken(written: Seq<char>, line: Seq<char>, more: Seq<char>)
    requires
        !written.contains('\n'),
        text::without_return(written) == line,
    ensures
        text::lines(written + seq!['\n'] + more) == seq![line] + text::lines(more),
{
    let s = written + seq!['\n'] + more;
    let n = written.len() as int;
    lemma_first_char(s, '\n');
    assert(s[n] == '\n');
    match text::find_char(s, '\n') {
        Some(i) => {
            if i > n {
                assert(s.take(i)[n] == '\n');
            }
            if i < n {
                assert(written[i] == s[i]);
            }
            assert(i == n);
            assert(s.take(n) =~= written);
            assert(s.skip(n + 1) =~= more);
        },
        None => {},
    }
}

/// The words of a text are those that white space parts: a word in front of
/// white space is its first, and white space in front makes no difference.
pub proof fn law_words_read_back(gap: Seq<char>, word: Seq<char>, rest: Seq<char>)
    requires
        forall|i: int| 0 <= i < gap.len() ==> text::white(#[trigger] gap[i]),
        word.len() > 0,
        forall|i: int| 0 <= i < word.len() ==> !text::white(#[trigger] word[i]),
        rest.len() == 0 || text::white(rest[0]),
    ensures
        text::words(gap + word + rest) == seq![word] + text::words(rest),
        text::words(gap) == Seq::<Seq<char>>::empty(),
{
    let s = gap + word + rest;
    lemma_gap(gap, word + rest);
    lemma_gap(gap, Seq::empty());
    assert(gap + Seq::empty() =~= gap);
    assert(gap + (word + rest) =~= s);
    let t = word + rest;
    assert(text::trimmed_start(s) == t);
    text::lemma_word_len(t);
    let n = text::word_len(t) as int;
    if n < word.len() {
        assert(t[n] == word[n]);
    }
    if n > word.len() {
        assert(t[word.len() as int] == rest[0]);
    }
    assert(t.take(n) =~= word);
    assert(t.skip(n) =~= rest);
}

proof fn lemma_gap(gap: Seq<char>, t: Seq<char>)
    requires
        forall|i: int| 0 <= i < gap.len() ==> text::white(#[trigger] gap[i]),
        t.len() == 0 || !text::white(t[0]),
    ensures
        text::trimmed_start(gap + t) == t,
    decreases gap.len(),
{
    if gap.len() == 0 {
        assert(gap + t =~= t);
    } else {
        assert((gap + t)[0] == gap[0]);
        assert((gap + t).skip(1) =~= gap.skip(1) + t);
        assert forall|i: int| 0 <= i < gap.skip(1).len() implies text::white(
            #[trigger] gap.skip(1)[i],
        ) by {
            assert(gap.skip(1)[i] == gap[i + 1]);
        }
        lemma_gap(gap.skip(1), t);
    }
}

/// Exchanging a character leaves a text without it as it is, and exchanges
/// each one on its own.
pub proof fn law_replacing(a: Seq<char>, b: Seq<char>, c: char, by: Seq<char>)
    ensures
        text::replaced(a + seq![c] + b, c, by) == text::replaced(a, c, by) + by + text::replaced(
            b,
            c,
            by,
        ),
        !a.contains(c) ==> text::replaced(a, c, by) == a,
    decreases b.len() + a.len(),
{
    let s = a + seq![c] + b;
    if b.len() == 0 {
        assert(s.drop_last() =~= a);
        assert(text::replaced(s, c, by) =~= text::replaced(a, c, by) + by + text::replaced(
            b,
            c,
            by,
        ));
    } else {
        law_replacing(a, b.drop_last(), c, by);
        assert(s.drop_last() =~= a + seq![c] + b.drop_last());
        assert(text::replaced(s, c, by) =~= text::replaced(a, c, by) + by + text::replaced(
            b,
            c,
            by,
        ));
    }
    if !a.contains(c) {
        lemma_nothing_replaced(a, c, by);
    }
}

proof fn lemma_nothing_replaced(a: Seq<char>, c: char, by: Seq<char>)
    requires
        !a.contains(c),
    ensures
        text::replaced(a, c, by) == a,
    decreases a.len(),
{
    if a.len() > 0 {
        assert(a[a.len() - 1] != c);
        assert forall|i: int| 0 <= i < a.drop_last().len() implies a.drop_last()[i] != c by {
            assert(a[i] != c);
        }
        lemma_nothing_replaced(a.drop_last(), c, by);
        assert(text::replaced(a, c, by) =~= a);
    }
}

/// Splitting takes off what stands before the first separator.
pub proof fn law_split_takes_the_first(first: Seq<char>, c: char, rest: Seq<char>)
    requires
        !first.contains(c),
    ensures
        text::split_char(first + seq![c] + rest, c) == seq![first] + text::split_char(rest, c),
        text::split_char(first, c) == seq![first],
        text::find_char(first + seq![c] + rest, c) == Some(first.len() as int),
        text::find_char(first, c) is None,
{
    let s = first + seq![c] + rest;
    let n = first.len() as int;
    lemma_first_char(s, c);
    lemma_first_char(first, c);
    assert(s[n] == c);
    assert(s.contains(c));
    let i = text::find_char(s, c)->0;
    if i < n {
        assert(first[i] == s[i]);
        assert(first.contains(c));
    }
    if i > n {
        assert(s.take(i)[n] == c);
        assert(s.take(i).contains(c));
    }
    assert(s.take(n) =~= first);
    assert(s.skip(n + 1) =~= rest);
    if text::find_char(first, c) is Some {
        assert(first.contains(c));
    }
}

/// The bytes of a text are those of its parts, and the place behind a part
/// is found by its bytes.
pub proof fn law_places_by_bytes(a: Seq<char>, b: Seq<char>)
    ensures
        text::byte_len(a + b) == text::byte_len(a) + text::byte_len(b),
        text::index_at_byte(a + b, text::byte_len(a) as int) == Some(a.len() as int),
    decreases a.len(), b.len(),
{
    lemma_byte_len_concat(a, b);
    if a.len() > 0 {
        let rest = a.skip(1);
        law_places_by_bytes(rest, b);
        assert((a + b).skip(1) =~= rest + b);
        assert((a + b)[0] == a[0]);
        assert(a =~= seq![a[0]] + rest);
        lemma_byte_len_concat(seq![a[0]], rest);
        assert(seq![a[0]].drop_last() =~= Seq::empty());
        assert(text::byte_len(seq![a[0]]) == text::width(a[0])) by {
            assert(text::byte_len(Seq::<char>::empty()) == 0);
        }
    }
}

proof fn lemma_byte_len_concat(a: Seq<char>, b: Seq<char>)
    ensures
        text::byte_len(a + b) == text::byte_len(a) + text::byte_len(b),
    decreases b.len(),
{
    if b.len() == 0 {
        assert(a + b =~= a);
    } else {
        lemma_byte_len_concat(a, b.drop_last());
        assert((a + b).drop_last() =~= a + b.drop_last());
    }
}

/// A text of ASCII characters takes a byte for each of them.
pub proof fn law_bytes_of_ascii(s: Seq<char>)
    requires
        forall|i: int| 0 <= i < s.len() ==> #[trigger] s[i] as int <= 127,
    ensures
        text::byte_len(s) == s.len(),
    decreases s.len(),
{
    if s.len() > 0 {
        assert forall|i: int| 0 <= i < s.drop_last().len() implies #[trigger] s.drop_last()[i]
            as int <= 127 by {
            assert(s.drop_last()[i] == s[i]);
        }
        law_bytes_of_ascii(s.drop_last());
        assert(s[s.len() - 1] as int <= 127);
        lemma_ascii_width(s.last());
    }
}

proof fn lemma_ascii_width(c: char)
    requires
        c as int <= 127,
    ensures
        text::width(c) == 1,
{
}

/// Whether a text is made of digits and is not empty.
pub open spec fn is_number(s: Seq<char>) -> bool {
    s.len() > 0 && forall|i: int| 0 <= i < s.len() ==> '0' <= #[trigger] s[i] <= '9'
}

/// The number in front of a text is that of its digits up to the first
/// character that is none; the one at its end is that of the digits behind
/// the last character that is none.
pub proof fn law_numbers_at_the_ends(digits: Seq<char>, rest: Seq<char>)
    requires
        is_number(digits),
        rest.len() == 0 || !('0' <= rest[0] <= '9'),
    ensures
        text::digits_len(digits + rest) == digits.len(),
        (digits + rest).take(digits.len() as int) == digits,
    decreases digits.len(),
{
    let s = digits + rest;
    assert(s.take(digits.len() as int) =~= digits);
    assert(s[0] == digits[0]);
    let more = digits.skip(1);
    assert(s.skip(1) =~= more + rest);
    if digits.len() == 1 {
        assert(s.skip(1) =~= rest);
        assert(text::digits_len(rest) == 0);
    } else {
        assert forall|i: int| 0 <= i < more.len() implies '0' <= #[trigger] more[i] <= '9' by {
            assert(more[i] == digits[i + 1]);
        }
        law_numbers_at_the_ends(more, rest);
    }
}

/// The digits at the end of a text are those behind its last character that
/// is none.
pub proof fn law_number_at_the_end(front: Seq<char>, digits: Seq<char>)
    requires
        is_number(digits),
        front.len() == 0 || !('0' <= front.last() <= '9'),
    ensures
        text::trailing_digits(front + digits) == digits,
{
    lemma_trailing(front, digits);
    let s = front + digits;
    assert(s.skip(s.len() - digits.len()) =~= digits);
}

proof fn lemma_trailing(front: Seq<char>, digits: Seq<char>)
    requires
        forall|i: int| 0 <= i < digits.len() ==> '0' <= #[trigger] digits[i] <= '9',
        front.len() == 0 || !('0' <= front.last() <= '9'),
    ensures
        text::trailing_digits_len(front + digits) == digits.len(),
    decreases digits.len(),
{
    let s = front + digits;
    if digits.len() == 0 {
        assert(s =~= front);
    } else {
        assert(s.last() == digits[digits.len() - 1]);
        assert(s.drop_last() =~= front + digits.drop_last());
        assert forall|i: int| 0 <= i < digits.drop_last().len() implies '0' <= #[trigger]
            digits.drop_last()[i] <= '9' by {
            assert(digits.drop_last()[i] == digits[i]);
        }
        lemma_trailing(front, digits.drop_last());
    }
}

/// White space at the ends of a text goes when it is trimmed, and what
/// stands between stays.
pub proof fn law_trimming_takes_the_ends(a: Seq<char>, t: Seq<char>, b: Seq<char>)
    requires
        forall|i: int| 0 <= i < a.len() ==> text::white(#[trigger] a[i]),
        forall|i: int| 0 <= i < b.len() ==> text::white(#[trigger] b[i]),
        t.len() > 0,
        !text::white(t[0]),
        !text::white(t.last()),
    ensures
        text::trimmed(a + t + b) == t,
        text::trimmed_start(a + t + b) == t + b,
        text::trimmed_end(a + t + b) == a + t,
{
    let s = a + t + b;
    assert(a + (t + b) =~= s);
    lemma_gap(a, t + b);
    lemma_gap_behind(t, b);
    lemma_gap_behind(a + t, b);
    assert(s =~= (a + t) + b);
}

proof fn lemma_gap_behind(t: Seq<char>, gap: Seq<char>)
    requires
        forall|i: int| 0 <= i < gap.len() ==> text::white(#[trigger] gap[i]),
        t.len() == 0 || !text::white(t.last()),
    ensures
        text::trimmed_end(t + gap) == t,
    decreases gap.len(),
{
    let s = t + gap;
    if gap.len() == 0 {
        assert(s =~= t);
    } else {
        assert(s.last() == gap[gap.len() - 1]);
        assert(s.drop_last() =~= t + gap.drop_last());
        assert forall|i: int| 0 <= i < gap.drop_last().len() implies text::white(
            #[trigger] gap.drop_last()[i],
        ) by {
            assert(gap.drop_last()[i] == gap[i]);
        }
        lemma_gap_behind(t, gap.drop_last());
    }
}

/// Two numbers are written the same only where they are the same, and a
/// negative one has its digits behind a minus sign.
pub proof fn law_numbers_are_told_apart(a: int, b: int)
    ensures
        text::signed_decimal(a) == text::signed_decimal(b) <==> a == b,
        a < 0 ==> text::signed_decimal(a)[0] == '-' && text::decimal_value(
            text::signed_decimal(a).skip(1),
        ) == -a,
        a >= 0 ==> text::decimal_value(text::signed_decimal(a)) == a,
{
    lemma_signed(a);
    lemma_signed(b);
}

proof fn lemma_signed(a: int)
    ensures
        text::signed_decimal(a).len() > 0,
        a < 0 ==> text::signed_decimal(a)[0] == '-' && text::decimal_value(
            text::signed_decimal(a).skip(1),
        ) == -a,
        a >= 0 ==> text::decimal_value(text::signed_decimal(a)) == a && text::signed_decimal(a)[0]
            != '-',
{
    if a < 0 {
        law_decimal_reads_back((-a) as nat);
        assert(text::signed_decimal(a).skip(1) =~= text::decimal((-a) as nat));
    } else {
        law_decimal_reads_back(a as nat);
        assert('0' <= text::decimal(a as nat)[0]);
    }
}

/// A number ends where its digits end: what is written with a character
/// that is no digit behind it can be taken apart again.
pub proof fn law_numbers_end(a: nat, b: nat, c: char, x: Seq<char>, y: Seq<char>)
    requires
        !('0' <= c <= '9'),
        text::decimal(a) + seq![c] + x == text::decimal(b) + seq![c] + y,
    ensures
        a == b,
        x == y,
{
    law_decimal_reads_back(a);
    law_decimal_reads_back(b);
    let s = text::decimal(a) + seq![c] + x;
    let t = text::decimal(b) + seq![c] + y;
    let m = text::decimal(a).len();
    let n = text::decimal(b).len();
    assert(s[m as int] == c);
    assert(t[n as int] == c);
    if m < n {
        assert(t[m as int] == text::decimal(b)[m as int]);
        assert(false);
    }
    if n < m {
        assert(s[n as int] == text::decimal(a)[n as int]);
        assert(false);
    }
    assert(s.take(m as int) =~= text::decimal(a));
    assert(t.take(m as int) =~= text::decimal(b));
    assert(s.skip(m as int + 1) =~= x);
    assert(t.skip(m as int + 1) =~= y);
}

/// A number that was written is read back where it fits; a larger one is no
/// number, and neither is nothing.
pub proof fn law_numbers_that_fit(n: nat)
    ensures
        n <= 2147483647 ==> text::digits_as_i32(text::decimal(n)) == Some(n as i32),
        n > 2147483647 ==> text::digits_as_i32(text::decimal(n)) is None,
        text::digits_as_i32(Seq::empty()) is None,
{
    law_decimal_reads_back(n);
}

/// A text takes as many bytes as its UTF-8 encoding has.
pub proof fn law_bytes_of_texts(s: Seq<char>)
    ensures
        text::byte_len(s) == vstd::utf8::encode_utf8(s).len(),
    decreases s.len(),
{
    if s.len() > 0 {
        let rest = s.drop_first();
        law_bytes_of_texts(rest);
        lemma_width_of_encoding(s[0]);
        lemma_byte_len_concat(seq![s[0]], rest);
        assert(seq![s[0]] + rest =~= s);
        assert(seq![s[0]].drop_last() =~= Seq::empty());
        assert(text::byte_len(Seq::<char>::empty()) == 0);
        assert(text::byte_len(seq![s[0]]) == text::width(s[0]));
    }
}

proof fn lemma_width_of_encoding(c: char)
    ensures
        vstd::utf8::encode_scalar(c as u32).len() == text::width(c),
{
}

// ---------------------------------------------------------------------
// The order of texts
// ---------------------------------------------------------------------

/// Of two texts the one comes first that has the smaller character where
/// they first differ; where there is no such place, the shorter one does.
pub proof fn law_order_of_texts(front: Seq<char>, a: char, b: char, x: Seq<char>, y: Seq<char>)
    ensures
        a != b ==> order::before(front + seq![a] + x, front + seq![b] + y) == (a < b),
        order::before(front, front + seq![a] + x),
        !order::before(front + seq![a] + x, front),
        !order::before(front, front),
    decreases front.len(),
{
    let s = front + seq![a] + x;
    let t = front + seq![b] + y;
    if front.len() == 0 {
        assert(s[0] == a);
        assert(t[0] == b);
    } else {
        let rest = front.skip(1);
        law_order_of_texts(rest, a, b, x, y);
        assert(s.skip(1) =~= rest + seq![a] + x);
        assert(t.skip(1) =~= rest + seq![b] + y);
        assert(s[0] == front[0]);
        assert(t[0] == front[0]);
    }
}

} // verus!
