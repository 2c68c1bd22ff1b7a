//! What holds of paths, in terms of the characters that they are made of.

use vstd::prelude::*;
use crate::checkpoint::paths;
use crate::checkpoint::paths::{LookModel, PlaceModel, StepModel};
use crate::text;
use crate::text_laws;
use crate::text_laws::is_piece;

verus! {

// ---------------------------------------------------------------------
// Parts
// ---------------------------------------------------------------------

/// Splitting two texts with a separator between them splits each.
pub proof fn lemma_split_concat(a: Seq<char>, c: char, b: Seq<char>)
    ensures
        text::split_char(a + seq![c] + b, c) == text::split_char(a, c) + text::split_char(b, c),
    decreases a.len(),
{
    text_laws::lemma_first_char(a, c);
    match text::find_char(a, c) {
        Some(i) => {
            let first = a.take(i);
            let rest = a.skip(i + 1);
            lemma_split_concat(rest, c, b);
            text_laws::law_split_takes_the_first(first, c, rest);
            text_laws::law_split_takes_the_first(first, c, rest + seq![c] + b);
            assert(a + seq![c] + b =~= first + seq![c] + (rest + seq![c] + b));
            assert(a =~= first + seq![c] + rest);
            assert(text::split_char(a + seq![c] + b, c) =~= text::split_char(a, c)
                + text::split_char(b, c));
        },
        None => {
            text_laws::law_split_takes_the_first(a, c, b);
        },
    }
}

/// The parts of a path are what slashes part, but for empty ones and single
/// dots; those of two paths with a slash between them are those of each, one
/// behind the other.
pub proof fn law_parts_of_paths(a: Seq<char>, b: Seq<char>, part: Seq<char>)
    ensures
        paths::path_parts(a).contains(part) <==> is_piece(a, '/', part) && part.len() > 0 && part
            != "."@,
        paths::path_parts(a + seq!['/'] + b) == paths::path_parts(a) + paths::path_parts(b),
        part.len() > 0 && part != "."@ && !part.contains('/') ==> paths::path_parts(part) == seq![
            part,
        ],
        paths::path_parts(Seq::empty()) == Seq::<Seq<char>>::empty(),
        paths::path_parts("."@) == Seq::<Seq<char>>::empty(),
{
    let p = |q: Seq<char>| q.len() > 0 && q != "."@;
    let all = text::split_char(a, '/');
    text_laws::law_split_gives_the_pieces(a, '/');
    lemma_kept(all, p, part);
    lemma_parts_join(a, b);
    if !part.contains('/') {
        lemma_part_alone(part);
    }
    lemma_one_kept(Seq::empty(), p);
    lemma_one_kept("."@, p);
    text_laws::law_split_takes_the_first(Seq::empty(), '/', Seq::empty());
    reveal_strlit(".");
    assert(!"."@.contains('/'));
    text_laws::law_split_takes_the_first("."@, '/', Seq::empty());
}

/// The parts of two paths with a slash between them are those of each.
pub proof fn lemma_parts_join(a: Seq<char>, b: Seq<char>)
    ensures
        paths::path_parts(a + seq!['/'] + b) == paths::path_parts(a) + paths::path_parts(b),
{
    let p = |q: Seq<char>| q.len() > 0 && q != "."@;
    lemma_split_concat(a, '/', b);
    lemma_filter_join(text::split_char(a, '/'), text::split_char(b, '/'), p);
}

/// No part of a path is empty or a single dot, and an empty path has none.
pub proof fn lemma_no_dot_parts(a: Seq<char>)
    ensures
        !paths::path_parts(a).contains("."@),
        paths::path_parts(Seq::empty()) == Seq::<Seq<char>>::empty(),
{
    let p = |q: Seq<char>| q.len() > 0 && q != "."@;
    lemma_kept(text::split_char(a, '/'), p, "."@);
    lemma_one_kept(Seq::empty(), p);
    text_laws::law_split_takes_the_first(Seq::empty(), '/', Seq::empty());
}

proof fn lemma_part_alone(part: Seq<char>)
    requires
        !part.contains('/'),
    ensures
        part.len() > 0 && part != "."@ ==> paths::path_parts(part) == seq![part],
{
    let p = |q: Seq<char>| q.len() > 0 && q != "."@;
    lemma_one_kept(part, p);
    text_laws::law_split_takes_the_first(part, '/', Seq::empty());
}

proof fn lemma_one_kept(part: Seq<char>, p: spec_fn(Seq<char>) -> bool)
    ensures
        p(part) ==> seq![part].filter(p) == seq![part],
        !p(part) ==> seq![part].filter(p) == Seq::<Seq<char>>::empty(),
{
    reveal_with_fuel(Seq::filter, 2);
    let s = seq![part];
    assert(s.drop_last() =~= Seq::empty());
    assert(s.drop_last().filter(p) =~= Seq::empty());
    if p(part) {
        assert(s.filter(p) =~= s);
    } else {
        assert(s.filter(p) =~= Seq::empty());
    }
}

proof fn lemma_kept(s: Seq<Seq<char>>, p: spec_fn(Seq<char>) -> bool, x: Seq<char>)
    ensures
        s.filter(p).contains(x) <==> s.contains(x) && p(x),
{
    let kept = s.filter(p);
    if kept.contains(x) {
        s.lemma_filter_contains_rev(p, x);
        let k = choose|k: int| 0 <= k < kept.len() && kept[k] == x;
        s.lemma_filter_pred(p, k);
    }
    if s.contains(x) && p(x) {
        let i = choose|i: int| 0 <= i < s.len() && s[i] == x;
        s.lemma_filter_contains(p, i);
    }
}

proof fn lemma_filter_join(a: Seq<Seq<char>>, b: Seq<Seq<char>>, p: spec_fn(Seq<char>) -> bool)
    ensures
        (a + b).filter(p) == a.filter(p) + b.filter(p),
    decreases b.len(),
{
    reveal_with_fuel(Seq::filter, 2);
    if b.len() == 0 {
        assert(a + b =~= a);
        assert(a.filter(p) + b.filter(p) =~= a.filter(p));
    } else {
        lemma_filter_join(a, b.drop_last(), p);
        assert((a + b).drop_last() =~= a + b.drop_last());
        assert((a + b).filter(p) =~= a.filter(p) + b.filter(p));
    }
}

/// Whether a text is a plain part of a path: something without slashes that
/// is neither one dot nor two.
pub open spec fn is_plain(part: Seq<char>) -> bool {
    part.len() > 0 && part != "."@ && part != ".."@ && !part.contains('/')
}

/// Two dots take back the part before them, or nothing at the front; any
/// other part is gone into.
pub proof fn law_dots_lead_back(parts: Seq<Seq<char>>, part: Seq<char>)
    ensures
        part != ".."@ ==> paths::followed(parts.push(part)) == paths::followed(parts).push(part),
        part != ".."@ ==> paths::followed(parts.push(part).push(".."@)) == paths::followed(parts),
        paths::followed(seq![".."@]) == Seq::<Seq<char>>::empty(),
        paths::followed(Seq::empty()) == Seq::<Seq<char>>::empty(),
{
    let more = parts.push(part);
    let back = more.push(".."@);
    assert(more.drop_last() =~= parts);
    assert(back.drop_last() =~= more);
    assert(more.last() == part);
    assert(back.last() == ".."@);
    if part != ".."@ {
        let there = paths::followed(more);
        assert(there == paths::followed(parts).push(part));
        assert(there.drop_last() =~= paths::followed(parts));
        assert(paths::followed(back) == there.drop_last());
    }
    let none = Seq::<Seq<char>>::empty();
    let up = none.push(".."@);
    assert(up =~= seq![".."@]);
    assert(up.drop_last() =~= none);
    assert(up.last() == ".."@);
    assert(paths::followed(none) == none);
    assert(paths::followed(up) == none);
}

/// The normal form of a path is made of the parts that are left when dots
/// are followed, with single slashes between them; it begins with a slash
/// exactly where the path does.
pub proof fn law_normal_paths(path: Seq<char>)
    ensures
        ({
            let n = paths::normal_path(path);
            let left = text::joined(paths::followed(paths::path_parts(path)), seq!['/']);
            &&& path.len() > 0 && path[0] == '/' ==> n == seq!['/'] + left
            &&& path.len() == 0 || path[0] != '/' ==> n == left
        }),
{
    reveal_strlit("/");
    assert("/"@ =~= seq!['/']);
}

/// A path of plain parts is its own normal form.
pub proof fn law_plain_paths_stay(parts: Seq<Seq<char>>)
    requires
        parts.len() > 0,
        forall|i: int| 0 <= i < parts.len() ==> is_plain(#[trigger] parts[i]),
    ensures
        paths::normal_path(text::joined(parts, seq!['/'])) == text::joined(parts, seq!['/']),
        paths::normal_path(seq!['/'] + text::joined(parts, seq!['/'])) == seq!['/']
            + text::joined(parts, seq!['/']),
{
    let s = text::joined(parts, seq!['/']);
    lemma_parts_read_back(parts);
    lemma_plain_followed(parts);
    law_normal_paths(s);
    law_normal_paths(seq!['/'] + s);
    law_parts_of_paths(Seq::empty(), s, Seq::empty());
    assert(Seq::<char>::empty() + seq!['/'] + s =~= seq!['/'] + s);
    assert(Seq::<Seq<char>>::empty() + paths::path_parts(s) =~= paths::path_parts(s));
}

proof fn lemma_parts_read_back(parts: Seq<Seq<char>>)
    requires
        parts.len() > 0,
        forall|i: int| 0 <= i < parts.len() ==> is_plain(#[trigger] parts[i]),
    ensures
        paths::path_parts(text::joined(parts, seq!['/'])) == parts,
        text::joined(parts, seq!['/']).len() > 0,
        text::joined(parts, seq!['/'])[0] != '/',
    decreases parts.len(),
{
    let s = text::joined(parts, seq!['/']);
    let last = parts.last();
    assert(is_plain(parts[parts.len() - 1]));
    lemma_part_alone(last);
    assert(last.contains(last[0]));
    if parts.len() == 1 {
        assert(s == last);
        assert(parts =~= seq![last]);
    } else {
        let front = parts.drop_last();
        assert forall|i: int| 0 <= i < front.len() implies is_plain(#[trigger] front[i]) by {
            assert(front[i] == parts[i]);
        }
        lemma_parts_read_back(front);
        let head = text::joined(front, seq!['/']);
        assert(s == head + seq!['/'] + last);
        lemma_parts_join(head, last);
        assert(front + seq![last] =~= parts);
        assert(s[0] == head[0]);
    }
}

proof fn lemma_plain_followed(parts: Seq<Seq<char>>)
    requires
        forall|i: int| 0 <= i < parts.len() ==> is_plain(#[trigger] parts[i]),
    ensures
        paths::followed(parts) == parts,
    decreases parts.len(),
{
    if parts.len() > 0 {
        let front = parts.drop_last();
        assert forall|i: int| 0 <= i < front.len() implies is_plain(#[trigger] front[i]) by {
            assert(front[i] == parts[i]);
        }
        lemma_plain_followed(front);
        assert(is_plain(parts[parts.len() - 1]));
        assert(front.push(parts.last()) =~= parts);
    }
}

/// What lies below a directory is told relative to it, by its parts; what
/// does not begin with the parts of the directory does not lie below it.
pub proof fn law_below_a_directory(base: Seq<char>, rest: Seq<char>, path: Seq<char>)
    ensures
        base.len() > 0 ==> paths::path_below(base + seq!['/'] + rest, base) == Some(
            text::joined(paths::path_parts(rest), seq!['/']),
        ),
        paths::path_below(path, base) is Some ==> paths::path_components(base).len()
            <= paths::path_components(path).len() && paths::path_components(path).take(
            paths::path_components(base).len() as int,
        ) == paths::path_components(base) && (path.len() > 0 && path[0] == '/') == (base.len() > 0
            && base[0] == '/'),
{
    reveal_strlit("/");
    assert("/"@ =~= seq!['/']);
    if base.len() > 0 {
        let whole = base + seq!['/'] + rest;
        lemma_parts_join(base, rest);
        lemma_split_concat(base, '/', rest);
        let parts = paths::path_components(whole);
        let head = paths::path_components(base);
        assert(text::split_char(base, '/').len() > 0);
        assert(text::split_char(whole, '/')[0] == text::split_char(base, '/')[0]);
        assert(parts =~= head + paths::path_parts(rest));
        assert(parts.take(head.len() as int) =~= head);
        assert(parts.skip(head.len() as int) =~= paths::path_parts(rest));
        assert(whole[0] == base[0]);
    }
}

/// The components of a path are its parts, with a single dot in front where
/// the path begins with one.
pub proof fn law_components_of_paths(path: Seq<char>, rest: Seq<char>)
    ensures
        path == seq!['.'] || path == seq!['.', '/'] + rest ==> paths::path_components(path)
            == seq!["."@] + paths::path_parts(path),
        path.len() == 0 || path[0] != '.' ==> paths::path_components(path) == paths::path_parts(
            path,
        ),
        path.len() > 1 && path[0] == '.' && path[1] != '/' ==> paths::path_components(path)
            == paths::path_parts(path),
{
    reveal_strlit(".");
    assert("."@ =~= seq!['.']);
    assert(!seq!['.'].contains('/'));
    text_laws::law_split_takes_the_first(seq!['.'], '/', rest);
    text_laws::lemma_first_char(path, '/');
    if path == seq!['.', '/'] + rest {
        assert(path =~= seq!['.'] + seq!['/'] + rest);
    }
    match text::find_char(path, '/') {
        Some(i) => {
            let first = path.take(i);
            text_laws::law_split_takes_the_first(first, '/', path.skip(i + 1));
            if first == "."@ {
                assert(first[0] == '.');
                assert(i == 1);
                assert(path[1] == '/');
            }
        },
        None => {
            text_laws::law_split_takes_the_first(path, '/', Seq::empty());
        },
    }
}

// ---------------------------------------------------------------------
// Keys and entries
// ---------------------------------------------------------------------

/// The prefixes of extended paths are taken off: a share is written with two
/// backslashes again, and any other path as it is without the prefix. Other
/// paths stay.
pub proof fn law_extended_paths(path: Seq<char>, rest: Seq<char>)
    ensures
        ({
            let prefix = seq!['\\', '\\', '?', '\\'];
            let share = seq!['U', 'N', 'C', '\\'];
            &&& paths::plain_path(prefix + share + rest) == seq!['\\', '\\'] + rest
            &&& !text::begins(rest, share) ==> paths::plain_path(prefix + rest) == rest
            &&& !text::begins(path, prefix) ==> paths::plain_path(path) == path
        }),
{
    let prefix = seq!['\\', '\\', '?', '\\'];
    let share = seq!['U', 'N', 'C', '\\'];
    reveal_strlit("\\\\?\\");
    reveal_strlit("UNC\\");
    reveal_strlit("\\\\");
    assert("\\\\?\\"@ =~= prefix);
    assert("UNC\\"@ =~= share);
    assert("\\\\"@ =~= seq!['\\', '\\']);
    let long = prefix + share + rest;
    assert(long.take(4) =~= prefix);
    assert(long.skip(4) =~= share + rest);
    assert((share + rest).take(4) =~= share);
    assert((share + rest).skip(4) =~= rest);
    assert((prefix + rest).take(4) =~= prefix);
    assert((prefix + rest).skip(4) =~= rest);
}

/// A path and its extended form are one file: they have the same key, and
/// are recorded the same way.
pub proof fn law_extended_paths_are_the_same(path: Seq<char>, root: Seq<char>, fold_case: bool)
    requires
        !text::begins(path, seq!['\\', '\\', '?', '\\']),
        !text::begins(path, seq!['U', 'N', 'C', '\\']),
    ensures
        ({
            let extended = seq!['\\', '\\', '?', '\\'] + path;
            &&& paths::key_of(extended, fold_case) == paths::key_of(path, fold_case)
            &&& paths::entry_path(extended, root, fold_case) == paths::entry_path(
                path,
                root,
                fold_case,
            )
            &&& paths::lies_within(extended, root, fold_case) == paths::lies_within(
                path,
                root,
                fold_case,
            )
        }),
{
    law_extended_paths(path, path);
}

/// Whether a path is written with slashes alone and does not end with one.
pub open spec fn is_tidy(path: Seq<char>) -> bool {
    path.len() > 0 && !path.contains('\\') && path.last() != '/'
}

/// The key of a tidy path is the path, in small letters where case is
/// folded. Slashes at the end, and backslashes for slashes, make no
/// difference.
pub proof fn law_keys_of_paths(path: Seq<char>, a: Seq<char>, b: Seq<char>)
    requires
        is_tidy(path),
    ensures
        paths::key_of(path, false) == path,
        paths::key_of(path, true) == text::ascii_lower(path),
        paths::key_of(path + seq!['/'], false) == path,
        path == a + seq!['/'] + b && a.len() > 0 ==> paths::key_of(a + seq!['\\'] + b, false)
            == path,
{
    reveal_strlit("/");
    assert("/"@ =~= seq!['/']);
    lemma_no_prefix(path);
    lemma_tidy_key(path);
    let ended = path + seq!['/'];
    assert(!ended.contains('\\')) by {
        if ended.contains('\\') {
            let k = choose|k: int| 0 <= k < ended.len() && ended[k] == '\\';
            assert(path[k] == '\\');
        }
    }
    lemma_no_prefix(ended);
    text_laws::law_replacing(ended, Seq::empty(), '\\', "/"@);
    assert(ended.drop_last() =~= path);
    if path == a + seq!['/'] + b && a.len() > 0 {
        let other = a + seq!['\\'] + b;
        assert(!a.contains('\\')) by {
            if a.contains('\\') {
                let k = choose|k: int| 0 <= k < a.len() && a[k] == '\\';
                assert(path[k] == '\\');
            }
        }
        assert(!b.contains('\\')) by {
            if b.contains('\\') {
                let k = choose|k: int| 0 <= k < b.len() && b[k] == '\\';
                assert(path[a.len() + 1 + k] == '\\');
            }
        }
        law_extended_paths(other, Seq::empty());
        if text::begins(other, seq!['\\', '\\', '?', '\\']) {
            assert(other.take(4)[0] == '\\');
            assert(a[0] == '\\');
        }
        text_laws::law_replacing(a, b, '\\', "/"@);
        text_laws::law_replacing(b, Seq::empty(), '\\', "/"@);
        assert(text::replaced(other, '\\', "/"@) =~= path);
    }
}

proof fn lemma_no_prefix(path: Seq<char>)
    requires
        !path.contains('\\'),
    ensures
        paths::plain_path(path) == path,
{
    law_extended_paths(path, Seq::empty());
    if text::begins(path, seq!['\\', '\\', '?', '\\']) {
        assert(path.take(4)[0] == '\\');
        assert(path[0] == '\\');
    }
}

proof fn lemma_tidy_key(path: Seq<char>)
    requires
        is_tidy(path),
    ensures
        paths::key_of(path, false) == path,
        paths::key_of(path, true) == text::ascii_lower(path),
{
    reveal_strlit("/");
    lemma_no_prefix(path);
    text_laws::law_replacing(path, Seq::empty(), '\\', "/"@);
}

/// A path below a root is recorded by what stands behind the root and a
/// slash, and found inside; the root itself by nothing; a path that does not
/// begin with the root and a slash by the whole path with a mark in front,
/// and found outside. So a directory whose name only begins as the root's is
/// outside.
pub proof fn law_how_paths_are_recorded(root: Seq<char>, rest: Seq<char>, other: Seq<char>)
    requires
        is_tidy(root),
        is_tidy(root + seq!['/'] + rest),
        is_tidy(other),
        other != root,
        !text::begins(other, root + seq!['/']),
    ensures
        paths::entry_path(root + seq!['/'] + rest, root, false) == rest,
        paths::entry_path(root, root, false).len() == 0,
        paths::entry_path(other, root, false) == "\x00abs:"@ + other,
        paths::place_of(paths::entry_path(other, root, false)) == PlaceModel::Outside(other),
        paths::lies_within(root + seq!['/'] + rest, root, false),
        paths::lies_within(root, root, false),
        !paths::lies_within(other, root, false),
{
    reveal_strlit("/");
    assert("/"@ =~= seq!['/']);
    let inner = root + seq!['/'] + rest;
    lemma_tidy_key(root);
    lemma_tidy_key(inner);
    lemma_tidy_key(other);
    let front = root + seq!['/'];
    assert(inner.take(front.len() as int) =~= front);
    assert(inner.skip(root.len() as int + 1) =~= rest);
    assert(inner != root) by {
        assert(inner.len() > root.len());
    }
    lemma_no_prefix(other);
    text_laws::law_replacing(other, Seq::empty(), '\\', "/"@);
    reveal_strlit("\x00abs:");
    let marked = "\x00abs:"@ + other;
    assert(marked.take("\x00abs:"@.len() as int) =~= "\x00abs:"@);
    assert(marked.skip("\x00abs:"@.len() as int) =~= other);
}

/// Where case is folded, a path lies within a root whichever case either is
/// written in.
pub proof fn law_case_makes_no_difference(root: Seq<char>, path: Seq<char>, again: Seq<char>)
    requires
        is_tidy(path),
        is_tidy(again),
        text::ascii_lower(path) == text::ascii_lower(again),
    ensures
        paths::lies_within(path, root, true) == paths::lies_within(again, root, true),
        paths::lies_within(root, path, true) == paths::lies_within(root, again, true),
{
    lemma_tidy_key(path);
    lemma_tidy_key(again);
}

/// A recorded path is found inside unless it begins with the mark.
pub proof fn law_where_recorded_paths_are(path: Seq<char>, rest: Seq<char>)
    ensures
        paths::place_of("\x00abs:"@ + rest) == PlaceModel::Outside(rest),
        !text::begins(path, "\x00abs:"@) ==> paths::place_of(path) == PlaceModel::Inside(path),
{
    let mark = "\x00abs:"@;
    assert((mark + rest).take(mark.len() as int) =~= mark);
    assert((mark + rest).skip(mark.len() as int) =~= rest);
}

// ---------------------------------------------------------------------
// Resolving
// ---------------------------------------------------------------------

/// The name of a path is what stands behind its last slash, and its parent
/// what stands before it, or the root where nothing does. A path that ends
/// with a slash, and one without any, has no parent.
pub proof fn law_names_and_parents(above: Seq<char>, name: Seq<char>)
    requires
        !name.contains('/'),
    ensures
        name.len() > 0 && above.len() > 0 ==> paths::split_name(above + seq!['/'] + name) == Some(
            (above, name),
        ),
        name.len() > 0 ==> paths::split_name(seq!['/'] + name) == Some((seq!['/'], name)),
        paths::split_name(name) is None,
        paths::split_name(above + seq!['/']) is None,
{
    lemma_last_slash(above + seq!['/'], name);
    lemma_last_slash(seq!['/'], name);
    lemma_last_slash(above + seq!['/'], Seq::empty());
    lemma_last_slash(Seq::empty(), name);
    let s = above + seq!['/'] + name;
    assert(s.take(above.len() as int) =~= above);
    assert(s.skip(above.len() as int + 1) =~= name);
    let r = seq!['/'] + name;
    assert(r.take(1) =~= seq!['/']);
    assert(r.skip(1) =~= name);
    assert(Seq::<char>::empty() + name =~= name);
    assert(above + seq!['/'] + Seq::empty() =~= above + seq!['/']);
}

proof fn lemma_last_slash(front: Seq<char>, name: Seq<char>)
    requires
        !name.contains('/'),
        front.len() == 0 || front.last() == '/',
    ensures
        paths::last_slash(front + name) == (if front.len() == 0 {
            None
        } else {
            Some(front.len() - 1)
        }),
    decreases name.len(),
{
    let s = front + name;
    if name.len() == 0 {
        assert(s =~= front);
    } else {
        assert(s.last() == name[name.len() - 1]);
        assert(name.contains(name[name.len() - 1]));
        assert(s.drop_last() =~= front + name.drop_last());
        assert(!name.drop_last().contains('/')) by {
            if name.drop_last().contains('/') {
                let k = choose|k: int|
                    0 <= k < name.drop_last().len() && name.drop_last()[k] == '/';
                assert(name[k] == '/');
            }
        }
        lemma_last_slash(front, name.drop_last());
    }
}

/// A path that is there is taken as it was found. For one that is not there
/// its parent is asked for, and the path is then taken below the parent as
/// that was found; where neither is there, or the path has no parent, the
/// path itself is taken in its normal form. A failure to look is told.
pub proof fn law_how_paths_are_resolved(
    path: Seq<char>,
    found: Seq<char>,
    why: Seq<char>,
    above: Seq<char>,
    name: Seq<char>,
)
    ensures
        paths::path_step(path, LookModel::At(found), None) == (StepModel::Resolved { path: found }),
        paths::path_step(path, LookModel::Failed(why), None) is Failed,
        paths::split_name(paths::normal_path(path)) == Some((above, name)) ==> {
            &&& paths::path_step(path, LookModel::Nothing, None) == (StepModel::AskParent {
                parent: above,
            })
            &&& paths::path_step(path, LookModel::Nothing, Some(LookModel::At(found))) == (
            StepModel::Below { directory: found, name })
            &&& paths::path_step(path, LookModel::Nothing, Some(LookModel::Failed(why))) is Failed
            &&& paths::path_step(path, LookModel::Nothing, Some(LookModel::Nothing)) == (
            StepModel::Resolved { path: paths::plain_path(paths::normal_path(path)) })
        },
        paths::split_name(paths::normal_path(path)) is None ==> paths::path_step(
            path,
            LookModel::Nothing,
            None,
        ) == (StepModel::Resolved { path: paths::plain_path(paths::normal_path(path)) }),
{
}

} // verus!
