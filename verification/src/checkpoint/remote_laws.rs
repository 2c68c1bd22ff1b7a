//! What holds of files on another machine.

use vstd::prelude::*;
use crate::checkpoint::before::ListedModel;
use crate::checkpoint::laws::{law_which_paths_are_recorded, leads_through_heavy};
use crate::checkpoint::manifest::{ManifestModel, StateModel};
use crate::checkpoint::path_laws;
use crate::checkpoint::recording;
use crate::checkpoint::remote;
use crate::checkpoint::remote::{
    AnswersModel, IgnoreModel, RemoteFileStat, RemoteReadModel, RemoteSightModel, TreeEntryModel,
};
use crate::checkpoint::restore;
use crate::checkpoint::sight::{ChangeType, Sight, StoredModel};
use crate::config::json;
use crate::config::json::JsonModel;
use crate::config::sql;
use crate::error::ErrorModel;
use crate::order;
use crate::rows;
use crate::text;
use crate::text_laws;

verus! {

// ---------------------------------------------------------------------
// Addresses
// ---------------------------------------------------------------------

/// An address names a user and a host, and then a path that begins with a
/// slash. A text without the scheme, without a user or without a path is no
/// address.
pub proof fn law_parts_of_addresses(user: Seq<char>, host: Seq<char>, path: Seq<char>, s: Seq<char>)
    requires
        !user.contains('@'),
        !host.contains('/'),
    ensures
        remote::uri_parts("ssh://"@ + (user + seq!['@'] + (host + seq!['/'] + path))) == Some(
            (user + seq!['@'] + host, seq!['/'] + path),
        ),
        remote::uri_parts("ssh://"@ + (user + seq!['@'] + host)) is None,
        remote::uri_parts("ssh://"@ + user) is None,
        !text::begins(s, "ssh://"@) ==> remote::uri_parts(s) is None,
{
    let scheme = "ssh://"@;
    let tail = host + seq!['/'] + path;
    let rest = user + seq!['@'] + tail;
    let whole = scheme + rest;
    assert(whole.take(scheme.len() as int) =~= scheme);
    assert(whole.skip(scheme.len() as int) =~= rest);
    text_laws::law_split_takes_the_first(user, '@', tail);
    text_laws::law_split_takes_the_first(user, '@', host);
    text_laws::law_split_takes_the_first(host, '/', path);
    assert(rest.skip(user.len() as int + 1) =~= tail);
    assert(rest.take(user.len() as int + 1) =~= user + seq!['@']);
    assert(tail.take(host.len() as int) =~= host);
    assert(tail.skip(host.len() as int) =~= seq!['/'] + path);
    let short = user + seq!['@'] + host;
    assert((scheme + short).take(scheme.len() as int) =~= scheme);
    assert((scheme + short).skip(scheme.len() as int) =~= short);
    assert(short.skip(user.len() as int + 1) =~= host);
    assert((scheme + user).take(scheme.len() as int) =~= scheme);
    assert((scheme + user).skip(scheme.len() as int) =~= user);
}

/// White space around an address, and slashes at its end, make no
/// difference; what is left of nothing is the root.
pub proof fn law_normal_addresses(a: Seq<char>, uri: Seq<char>, b: Seq<char>)
    requires
        forall|i: int| 0 <= i < a.len() ==> text::white(#[trigger] a[i]),
        forall|i: int| 0 <= i < b.len() ==> text::white(#[trigger] b[i]),
        uri.len() > 0,
        !text::white(uri[0]),
        !text::white(uri.last()),
        uri.last() != '/',
    ensures
        remote::normal_uri(a + uri + b) == uri,
        remote::normal_uri(a + (uri + seq!['/']) + b) == uri,
        remote::normal_uri(a) == "/"@,
        remote::normal_uri("/"@) == "/"@,
{
    let ended = uri + seq!['/'];
    text_laws::law_white_space('/');
    text_laws::law_trimming_takes_the_ends(a, uri, b);
    text_laws::law_trimming_takes_the_ends(a, ended, b);
    assert(ended.drop_last() =~= uri);
    assert(text::without_trailing(uri, '/') == uri);
    assert(text::without_trailing(ended, '/') == uri);
    text_laws::law_trimming(a);
    let t = text::trimmed(a);
    if t.len() > 0 {
        text::lemma_trimmed_start(a);
        assert(text::trimmed_start(a).len() > 0 ==> !text::white(text::trimmed_start(a)[0]));
        let (x, y) = choose|x: Seq<char>, y: Seq<char>|
            #![trigger x + t + y]
            a == x + t + y && (forall|i: int| 0 <= i < x.len() ==> text::white(#[trigger] x[i]))
                && (forall|i: int| 0 <= i < y.len() ==> text::white(#[trigger] y[i]));
        assert(a[x.len() as int] == t[0]);
    }
    reveal_strlit("/");
    let root = "/"@;
    assert(root =~= seq!['/']);
    assert(text::trimmed_start(root) == root);
    assert(text::trimmed(root) == root);
    assert(root.drop_last() =~= Seq::empty());
    assert(text::without_trailing(root.drop_last(), '/').len() == 0);
}

/// A file below a root of the same user and host is recorded by what stands
/// behind the root and a slash; one elsewhere by its whole address with a
/// mark in front; a text that is no address lies below the root.
pub proof fn law_how_addresses_are_recorded(
    who: Seq<char>,
    host: Seq<char>,
    base: Seq<char>,
    rest: Seq<char>,
    plain: Seq<char>,
    file: Seq<char>,
)
    requires
        !who.contains('@'),
        !host.contains('/'),
        base.len() == 0 || base.last() != '/',
        rest.len() > 0,
        rest.last() != '/',
    ensures
        ({
            let at = |path: Seq<char>|
                "ssh://"@ + (who + seq!['@'] + (host + seq!['/'] + path));
            let root = at(base);
            let below = if base.len() == 0 {
                at(rest)
            } else {
                at(base + seq!['/'] + rest)
            };
            &&& remote::remote_entry(root, below) == (below, rest)
            &&& remote::remote_entry(root, root).1.len() == 0
            &&& remote::uri_parts(file) is Some && (remote::uri_parts(file)->0).0 != who + seq!['@']
                + host ==> remote::remote_entry(root, file) == (file, "\x00abs:"@ + file)
            &&& remote::uri_parts(plain) is None ==> remote::remote_entry(root, plain).1 == plain
        }),
{
    let path = if base.len() == 0 {
        rest
    } else {
        base + seq!['/'] + rest
    };
    law_parts_of_addresses(who, host, base, plain);
    law_parts_of_addresses(who, host, path, plain);
    reveal_strlit("/");
    assert("/"@ =~= seq!['/']);
    let full = seq!['/'] + path;
    let root_full = seq!['/'] + base;
    assert(full.last() == rest.last());
    assert(text::without_trailing(full, '/') == full);
    if base.len() == 0 {
        assert(root_full =~= seq!['/']);
        assert(root_full.drop_last() =~= Seq::empty());
        assert(text::without_trailing(root_full, '/').len() == 0) by {
            assert(text::without_trailing(root_full.drop_last(), '/').len() == 0);
        }
        let none = text::without_trailing(root_full, '/');
        assert(none =~= Seq::empty());
        assert(full.take(1) =~= none + "/"@);
        assert(full.skip(1) =~= rest);
    } else {
        assert(root_full.last() == base.last());
        assert(text::without_trailing(root_full, '/') == root_full);
        let front = root_full + "/"@;
        assert(full =~= front + rest);
        assert(full.take(front.len() as int) =~= front);
        assert(full.skip(root_full.len() as int + 1) =~= rest);
        assert(full.len() != root_full.len());
    }
}

/// A recorded path is found below the root with one slash between, and a
/// marked one at its own address.
pub proof fn law_where_recorded_addresses_are(root: Seq<char>, path: Seq<char>)
    requires
        root.len() > 0,
        root.last() != '/',
        !text::begins(path, "\x00abs:"@),
    ensures
        remote::remote_place(root, path) == root + seq!['/'] + path,
        remote::remote_place(root + seq!['/'], path) == root + seq!['/'] + path,
        remote::remote_place(root, "\x00abs:"@ + path) == path,
{
    reveal_strlit("/");
    assert("/"@ =~= seq!['/']);
    let ended = root + seq!['/'];
    assert(ended.drop_last() =~= root);
    assert(text::without_trailing(root, '/') == root);
    assert(text::without_trailing(ended, '/') == root);
    let mark = "\x00abs:"@;
    assert((mark + path).take(mark.len() as int) =~= mark);
    assert((mark + path).skip(mark.len() as int) =~= path);
}

/// A directory of another machine is used where its address is one, and it is
/// there and is a directory; then its normal address is.
pub proof fn law_directories_of_other_machines(
    dir: Seq<char>,
    is_ssh: bool,
    there: Option<RemoteFileStat>,
)
    ensures
        ({
            let r = remote::remote_root(dir, is_ssh, there);
            let fine = is_ssh && there is Some && there->0.is_directory;
            &&& fine ==> r == Ok::<Seq<char>, ErrorModel>(remote::normal_uri(text::trimmed(dir)))
            &&& !fine ==> r is Err
        }),
{
}

/// A checkpoint belongs to a directory of another machine where their normal
/// addresses agree.
pub proof fn law_checkpoints_of_other_machines(found: Option<ManifestModel>, dir: Seq<char>)
    ensures
        recording::to_record(found, remote::of_workspace(dir)) is Some <==> found is Some
            && remote::normal_uri(dir) == remote::normal_uri(found->0.work_dir),
        recording::to_record(found, remote::of_workspace(dir)) is Some ==> recording::to_record(
            found,
            remote::of_workspace(dir),
        ) == found,
{
}

// ---------------------------------------------------------------------
// Replies
// ---------------------------------------------------------------------

/// The state of a file is read from these fields of a reply; a field that is
/// missing, or of another kind, counts as no directory, or as zero.
pub proof fn law_states_in_replies(fields: Seq<(Seq<char>, JsonModel)>, n: u64, i: i64)
    ensures
        ({
            let r = remote::stat_in(JsonModel::Object(fields));
            &&& r.is_directory <==> json::lookup(fields, "isDirectory"@) == Some(
                JsonModel::Bool(true),
            )
            &&& json::lookup(fields, "size"@) == Some(JsonModel::UInt(n)) ==> r.size == n
            &&& json::lookup(fields, "size"@) == Some(JsonModel::Int(i)) && i >= 0 ==> r.size == i
            &&& json::lookup(fields, "size"@) is None ==> r.size == 0
            &&& json::lookup(fields, "mtimeMs"@) == Some(JsonModel::UInt(n)) ==> r.mtime_ms == n
            &&& json::lookup(fields, "mtimeMs"@) == Some(JsonModel::Int(i)) && i >= 0
                ==> r.mtime_ms == i
            &&& json::lookup(fields, "mtimeMs"@) is None ==> r.mtime_ms == 0
        }),
{
}

/// The entries of a tree are the items of the reply that have a path, with
/// their states; the ignore rules are the items that have a directory and
/// content.
pub proof fn law_trees_in_replies(item: JsonModel, path: Seq<char>, content: Seq<char>)
    ensures
        json::as_text(remote::field(item, "path"@)) == Some(path) ==> remote::tree_entry()(item)
            == Some(TreeEntryModel { path, stat: remote::stat_in(item) }),
        json::as_text(remote::field(item, "path"@)) is None ==> remote::tree_entry()(
            item,
        ) is None,
        json::as_text(remote::field(item, "dir"@)) == Some(path) && json::as_text(
            remote::field(item, "content"@),
        ) == Some(content) ==> remote::ignore_rules()(item) == Some(
            IgnoreModel { dir: path, content },
        ),
        json::as_text(remote::field(item, "dir"@)) is None || json::as_text(
            remote::field(item, "content"@),
        ) is None ==> remote::ignore_rules()(item) is None,
{
}

/// The content of a file is what its field stands for in base 64; without
/// the field there is no file, and a text that is none in base 64 is a
/// failure.
pub proof fn law_content_in_replies(reply: JsonModel, encoded: Seq<char>)
    ensures
        json::as_text(remote::field(reply, "content"@)) is None ==> remote::content_in(reply)
            == Ok::<Option<Seq<u8>>, ErrorModel>(None),
        json::as_text(remote::field(reply, "content"@)) == Some(encoded) && sql::base64_bytes(
            encoded,
        ) is Ok ==> remote::content_in(reply) == Ok::<Option<Seq<u8>>, ErrorModel>(
            Some(sql::base64_bytes(encoded)->Ok_0),
        ),
        json::as_text(remote::field(reply, "content"@)) == Some(encoded) && sql::base64_bytes(
            encoded,
        ) is Err ==> remote::content_in(reply) is Err,
{
}

// ---------------------------------------------------------------------
// Trees
// ---------------------------------------------------------------------

/// Of several entries of a path the last that is no directory counts.
pub proof fn law_states_in_trees(tree: Seq<TreeEntryModel>, e: TreeEntryModel, path: Seq<char>)
    ensures
        e.path == path && !e.stat.is_directory ==> remote::stat_of(tree.push(e), path) == Some(
            e.stat,
        ),
        e.path != path || e.stat.is_directory ==> remote::stat_of(tree.push(e), path)
            == remote::stat_of(tree, path),
        remote::stat_of(Seq::empty(), path) is None,
{
    assert(tree.push(e).drop_last() =~= tree);
    assert(tree.push(e).last() == e);
}

/// The directories above a path are its parts up to each slash, from the top
/// down: below a directory they are those above the directory, and then the
/// directory itself.
pub proof fn law_directories_above(dir: Seq<char>, name: Seq<char>)
    requires
        !name.contains('/'),
    ensures
        remote::directories_above(dir + seq!['/'] + name) == remote::directories_above(dir).push(
            dir,
        ),
        remote::directories_above(name) == Seq::<Seq<char>>::empty(),
{
    let whole = dir + seq!['/'] + name;
    path_laws::lemma_split_concat(dir, '/', name);
    text_laws::law_split_takes_the_first(name, '/', Seq::empty());
    text_laws::law_split_gives_the_pieces(dir, '/');
    let parts = text::split_char(dir, '/');
    let all = text::split_char(whole, '/');
    reveal_strlit("/");
    assert("/"@ =~= seq!['/']);
    assert(all == parts + seq![name]);
    let above = remote::directories_above(whole);
    let old = remote::directories_above(dir);
    assert forall|i: int| 0 <= i < above.len() implies above[i] == old.push(dir)[i] by {
        assert(all.take(i + 1) =~= parts.take(i + 1));
        if i == parts.len() - 1 {
            assert(parts.take(i + 1) =~= parts);
        }
    }
    assert(above =~= old.push(dir));
    assert(remote::directories_above(name) =~= Seq::empty());
}

/// A file is left out where the rules leave it out itself, or a directory
/// above it.
pub proof fn law_what_is_left_out(a: AnswersModel, i: int)
    ensures
        a.as_file ==> remote::leaves_out(a),
        0 <= i < a.as_directories.len() && a.as_directories[i] ==> remote::leaves_out(a),
        !a.as_file && (forall|j: int|
            0 <= j < a.as_directories.len() ==> !#[trigger] a.as_directories[j])
            ==> !remote::leaves_out(a),
{
    if a.as_directories.contains(true) {
        let j = choose|j: int| 0 <= j < a.as_directories.len() && a.as_directories[j] == true;
        assert(a.as_directories[j]);
    }
}

/// What is left of a tree are the entries that are not left out.
pub proof fn law_what_is_left_of_a_tree(
    entries: Seq<TreeEntryModel>,
    answers: Seq<AnswersModel>,
    n: int,
    e: TreeEntryModel,
)
    requires
        0 <= n <= entries.len(),
    ensures
        remote::not_ignored(entries, answers, n).contains(e) <==> exists|i: int|
            0 <= i < n && (#[trigger] entries[i]) == e && !remote::leaves_out(answers[i]),
    decreases n,
{
    if n > 0 {
        law_what_is_left_of_a_tree(entries, answers, n - 1, e);
        let before = remote::not_ignored(entries, answers, n - 1);
        let last = entries[n - 1];
        assert(before.push(last) =~= before + seq![last]);
        rows::lemma_concat_contains(before, seq![last], e);
        assert(seq![last].contains(e) <==> e == last) by {
            assert(seq![last][0] == last);
        }
        if exists|i: int|
            0 <= i < n && (#[trigger] entries[i]) == e && !remote::leaves_out(answers[i]) {
            let i = choose|i: int|
                0 <= i < n && (#[trigger] entries[i]) == e && !remote::leaves_out(answers[i]);
            if i < n - 1 {
                assert(before.contains(e));
            }
        }
        if before.contains(e) {
            let i = choose|i: int|
                0 <= i < n - 1 && (#[trigger] entries[i]) == e && !remote::leaves_out(
                    answers[i],
                );
            assert(0 <= i < n && entries[i] == e);
        }
    }
}

/// Files of a tree are kept before a command, but for those in directories
/// of tools; directories are not. They are asked for with their time and
/// size.
pub proof fn law_files_of_trees(tree: Seq<TreeEntryModel>, e: TreeEntryModel, path: Seq<char>)
    ensures
        !e.stat.is_directory && !leads_through_heavy(e.path) ==> remote::captured_file()(e)
            == Some(
            ListedModel {
                path: e.path,
                mtime_ms: e.stat.mtime_ms,
                size: e.stat.size,
                copied: None,
            },
        ),
        e.stat.is_directory || leads_through_heavy(e.path) ==> remote::captured_file()(e) is None,
        remote::file_paths(tree).contains(path) <==> exists|i: int|
            0 <= i < tree.len() && (#[trigger] tree[i]).path == path && !tree[i].stat.is_directory,
{
    law_which_paths_are_recorded(e.path);
    let f = remote::path_of_file();
    rows::lemma_filter_map_contains(tree, f, path);
    if exists|i: int| 0 <= i < tree.len() && f(#[trigger] tree[i]) == Some(path) {
        let i = choose|i: int| 0 <= i < tree.len() && f(#[trigger] tree[i]) == Some(path);
        assert(tree[i].path == path);
    }
    if exists|i: int|
        0 <= i < tree.len() && (#[trigger] tree[i]).path == path && !tree[i].stat.is_directory {
        let i = choose|i: int|
            0 <= i < tree.len() && (#[trigger] tree[i]).path == path
                && !tree[i].stat.is_directory;
        assert(f(tree[i]) == Some(path));
    }
}

/// Ignore rules are taken from the top down, the less deep directory first,
/// and those of the root are the first rules without a directory.
pub proof fn law_order_of_ignore_rules(rules: Seq<IgnoreModel>, i: int, j: int)
    ensures
        ({
            let sorted = order::sorted(rules, remote::upper_first());
            &&& 0 <= i < j < sorted.len() ==> restore::slashes(sorted[i].dir) <= restore::slashes(
                sorted[j].dir,
            )
            &&& sorted.to_multiset() == rules.to_multiset()
            &&& remote::root_rules(rules) is Some <==> exists|k: int|
                0 <= k < rules.len() && (#[trigger] rules[k]).dir.len() == 0
        }),
{
    let le = remote::upper_first();
    assert(order::is_order(le));
    order::lemma_sorted(rules, le);
    let sorted = order::sorted(rules, le);
    if 0 <= i < j < sorted.len() {
        assert(le(sorted[i], sorted[j]));
    }
    let p = |r: IgnoreModel| r.dir.len() == 0;
    rows::lemma_first_row(rules, p);
    if rows::first_row(rules, p) is Some {
        let r = rows::first_row(rules, p)->0;
        let k = choose|k: int| 0 <= k < rules.len() && rules[k] == r;
        assert(rules[k].dir.len() == 0);
    }
    if exists|k: int| 0 <= k < rules.len() && (#[trigger] rules[k]).dir.len() == 0 {
        let k = choose|k: int| 0 <= k < rules.len() && (#[trigger] rules[k]).dir.len() == 0;
        assert(p(rules[k]));
    }
}

// ---------------------------------------------------------------------
// Changes
// ---------------------------------------------------------------------

/// A file of another machine whose size differs has changed without its
/// being read. One of the same size is read: what was gone by then is
/// deleted, a failure is told, and a file that was not read is a failure,
/// and never taken as unchanged.
pub proof fn law_changes_of_remote_files(
    seen: RemoteSightModel,
    path: Seq<char>,
    id: Seq<char>,
    bytes: Seq<u8>,
    e: ErrorModel,
)
    ensures
        ({
            let state = StateModel::Object { object_id: id };
            let r = remote::remote_change(seen, path, state, StoredModel::Content(bytes));
            let same_size = seen.stat is Some && seen.stat->0.size == bytes.len();
            &&& seen.stat is None ==> r == Ok::<Option<ChangeType>, ErrorModel>(
                Some(ChangeType::Deleted),
            )
            &&& seen.stat is Some && !same_size ==> r == Ok::<Option<ChangeType>, ErrorModel>(
                Some(ChangeType::Modified),
            )
            &&& same_size && seen.read is Gone ==> r == Ok::<Option<ChangeType>, ErrorModel>(
                Some(ChangeType::Deleted),
            )
            &&& same_size && seen.read == RemoteReadModel::Failed(e) ==> r == Err::<
                Option<ChangeType>,
                ErrorModel,
            >(e)
            &&& same_size && seen.read is Unread ==> r is Err
            &&& remote::remote_change(seen, path, StateModel::Git, StoredModel::Absent) is Err
            &&& !remote::RemoteSight::reads_git()
        }),
{
}

/// What is shown of a file of another machine is what was read of it; one
/// that is not there, or gone by then, is shown as none.
pub proof fn law_content_of_remote_files(
    seen: RemoteSightModel,
    path: Seq<char>,
    bytes: Seq<u8>,
    e: ErrorModel,
)
    ensures
        ({
            let r = remote::RemoteSight::content(seen, path);
            &&& seen.stat is None || seen.read is Gone ==> r == Ok::<
                Option<Seq<u8>>,
                ErrorModel,
            >(None)
            &&& seen.stat is Some && seen.read == RemoteReadModel::Content(bytes) ==> r == Ok::<
                Option<Seq<u8>>,
                ErrorModel,
            >(Some(bytes))
            &&& seen.stat is Some && seen.read == RemoteReadModel::Failed(e) ==> r == Err::<
                Option<Seq<u8>>,
                ErrorModel,
            >(e)
            &&& seen.stat is Some && seen.read is Unread ==> r is Err
        }),
{
}

} // verus!
