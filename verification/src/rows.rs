//! Lists of rows: choosing, changing, counting and copying them.

use vstd::prelude::*;

verus! {

/// A copy of a row.
pub trait Copied: DeepView + Sized {
    fn copied(&self) -> (out: Self)
        ensures
            out.deep_view() == self.deep_view(),
    ;
}

impl Copied for String {
    fn copied(&self) -> (out: Self) {
        self.clone()
    }
}

/// A copy of a list of rows.
pub(crate) fn copy_rows<T: Copied>(rows: &Vec<T>) -> (out: Vec<T>)
    ensures
        out.deep_view() == rows.deep_view(),
{
    let mut out: Vec<T> = Vec::new();
    let mut i: usize = 0;
    while i < rows.len()
        invariant
            i <= rows@.len(),
            out@.len() == i,
            forall|j: int| 0 <= j < i ==> (#[trigger] out@[j]).deep_view() == rows@[j].deep_view(),
        decreases rows@.len() - i,
    {
        out.push(rows[i].copied());
        i += 1;
    }
    proof {
        assert(out.deep_view() =~= rows.deep_view());
    }
    out
}

/// The values that a function gives for the rows, where it gives one.
pub(crate) fn select_rows<T: DeepView, U: DeepView, F: Fn(&T) -> Option<U>>(
    rows: &Vec<T>,
    f: F,
    Ghost(g): Ghost<spec_fn(T::V) -> Option<U::V>>,
) -> (out: Vec<U>)
    requires
        forall|x: &T| #[trigger] call_requires(f, (x,)),
        forall|x: &T, y: Option<U>|
            #[trigger] call_ensures(f, (x,), y) ==> y.deep_view() == g(x.deep_view()),
    ensures
        out.deep_view() == rows.deep_view().filter_map(g),
{
    let ghost all = rows.deep_view();
    let mut out: Vec<U> = Vec::new();
    proof {
        assert(out.deep_view() =~= all.take(0).filter_map(g));
    }
    let mut i: usize = 0;
    while i < rows.len()
        invariant
            i <= rows@.len(),
            all == rows.deep_view(),
            forall|x: &T| #[trigger] call_requires(f, (x,)),
            forall|x: &T, y: Option<U>|
                #[trigger] call_ensures(f, (x,), y) ==> y.deep_view() == g(x.deep_view()),
            out.deep_view() == all.take(i as int).filter_map(g),
        decreases rows@.len() - i,
    {
        let ghost before = out.deep_view();
        proof {
            all.lemma_filter_map_take_succ(g, i as int);
            assert(all[i as int] == rows@[i as int].deep_view());
        }
        match f(&rows[i]) {
            Some(y) => {
                out.push(y);
                proof {
                    assert(out.deep_view() =~= before + seq![y.deep_view()]);
                }
            },
            None => {
                assert(before + Seq::empty() =~= before);
            },
        }
        i += 1;
    }
    proof {
        assert(all.take(i as int) =~= all);
    }
    out
}

/// The rows for which a test holds.
pub(crate) fn keep_rows<T: Copied, F: Fn(&T) -> bool>(
    rows: &Vec<T>,
    f: F,
    Ghost(p): Ghost<spec_fn(T::V) -> bool>,
) -> (out: Vec<T>)
    requires
        forall|x: &T| #[trigger] call_requires(f, (x,)),
        forall|x: &T, y: bool| #[trigger] call_ensures(f, (x,), y) ==> y == p(x.deep_view()),
    ensures
        out.deep_view() == rows.deep_view().filter(p),
{
    let ghost all = rows.deep_view();
    let mut out: Vec<T> = Vec::new();
    proof {
        assert(out.deep_view() =~= all.take(0).filter(p));
    }
    let mut i: usize = 0;
    while i < rows.len()
        invariant
            i <= rows@.len(),
            all == rows.deep_view(),
            forall|x: &T| #[trigger] call_requires(f, (x,)),
            forall|x: &T, y: bool| #[trigger] call_ensures(f, (x,), y) ==> y == p(x.deep_view()),
            out.deep_view() == all.take(i as int).filter(p),
        decreases rows@.len() - i,
    {
        let ghost before = out.deep_view();
        proof {
            assert(all.take(i + 1).drop_last() =~= all.take(i as int));
            assert(all.take(i + 1).last() == rows@[i as int].deep_view());
            reveal_with_fuel(Seq::filter, 2);
        }
        if f(&rows[i]) {
            let row = rows[i].copied();
            out.push(row);
            proof {
                assert(out.deep_view() =~= before.push(row.deep_view()));
            }
        }
        i += 1;
    }
    proof {
        assert(all.take(i as int) =~= all);
    }
    out
}

/// The rows with each one changed.
pub(crate) fn change_rows<T: DeepView, F: Fn(&T) -> T>(
    rows: &Vec<T>,
    f: F,
    Ghost(g): Ghost<spec_fn(T::V) -> T::V>,
) -> (out: Vec<T>)
    requires
        forall|x: &T| #[trigger] call_requires(f, (x,)),
        forall|x: &T, y: T|
            #[trigger] call_ensures(f, (x,), y) ==> y.deep_view() == g(x.deep_view()),
    ensures
        out.deep_view() == rows.deep_view().map_values(g),
{
    let mut out: Vec<T> = Vec::new();
    let mut i: usize = 0;
    while i < rows.len()
        invariant
            i <= rows@.len(),
            forall|x: &T| #[trigger] call_requires(f, (x,)),
            forall|x: &T, y: T|
                #[trigger] call_ensures(f, (x,), y) ==> y.deep_view() == g(x.deep_view()),
            out@.len() == i,
            forall|j: int|
                0 <= j < i ==> (#[trigger] out@[j]).deep_view() == g(rows@[j].deep_view()),
        decreases rows@.len() - i,
    {
        out.push(f(&rows[i]));
        i += 1;
    }
    proof {
        assert(out.deep_view() =~= rows.deep_view().map_values(g));
    }
    out
}

/// The first of the rows for which a test holds.
pub open spec fn first_row<M>(rows: Seq<M>, p: spec_fn(M) -> bool) -> Option<M>
    decreases rows.len(),
{
    if rows.len() == 0 {
        None
    } else if p(rows[0]) {
        Some(rows[0])
    } else {
        first_row(rows.skip(1), p)
    }
}

/// There is a first row exactly where the test holds for one; it is one of
/// the rows, and the test holds for it.
pub proof fn lemma_first_row<M>(rows: Seq<M>, p: spec_fn(M) -> bool)
    ensures
        match first_row(rows, p) {
            Some(x) => p(x) && rows.contains(x),
            None => forall|i: int| 0 <= i < rows.len() ==> !p(#[trigger] rows[i]),
        },
    decreases rows.len(),
{
    if rows.len() > 0 {
        if p(rows[0]) {
            assert(rows.contains(rows[0]));
        } else {
            lemma_first_row(rows.skip(1), p);
            match first_row(rows.skip(1), p) {
                Some(x) => {
                    let i = choose|i: int| 0 <= i < rows.skip(1).len() && rows.skip(1)[i] == x;
                    assert(rows[i + 1] == x);
                },
                None => {
                    assert forall|i: int| 0 <= i < rows.len() implies !p(#[trigger] rows[i]) by {
                        if i > 0 {
                            assert(rows.skip(1)[i - 1] == rows[i]);
                        }
                    }
                },
            }
        }
    }
}

/// Finds the first of the rows for which a test holds.
pub(crate) fn find_row<'a, T: DeepView, F: Fn(&T) -> bool>(
    rows: &'a Vec<T>,
    f: F,
    Ghost(p): Ghost<spec_fn(T::V) -> bool>,
) -> (r: Option<&'a T>)
    requires
        forall|x: &T| #[trigger] call_requires(f, (x,)),
        forall|x: &T, y: bool| #[trigger] call_ensures(f, (x,), y) ==> y == p(x.deep_view()),
    ensures
        match r {
            Some(x) => first_row(rows.deep_view(), p) == Some(x.deep_view()),
            None => first_row(rows.deep_view(), p) is None,
        },
{
    let ghost all = rows.deep_view();
    proof {
        assert(all.skip(0) =~= all);
    }
    let mut i: usize = 0;
    while i < rows.len()
        invariant
            i <= rows@.len(),
            all == rows.deep_view(),
            forall|x: &T| #[trigger] call_requires(f, (x,)),
            forall|x: &T, y: bool| #[trigger] call_ensures(f, (x,), y) ==> y == p(x.deep_view()),
            first_row(all, p) == first_row(all.skip(i as int), p),
        decreases rows@.len() - i,
    {
        proof {
            assert(all.skip(i as int)[0] == rows@[i as int].deep_view());
            assert(all.skip(i as int).skip(1) =~= all.skip(i + 1));
        }
        if f(&rows[i]) {
            return Some(&rows[i]);
        }
        i += 1;
    }
    None
}

/// A list with rows added behind it.
pub(crate) fn add_rows<T: Copied>(rows: &Vec<T>, more: &Vec<T>) -> (out: Vec<T>)
    ensures
        out.deep_view() == rows.deep_view() + more.deep_view(),
{
    let mut out = copy_rows(rows);
    let ghost start = out.deep_view();
    proof {
        assert(start + more.deep_view().take(0) =~= start);
    }
    let mut i: usize = 0;
    while i < more.len()
        invariant
            i <= more@.len(),
            out.deep_view() == start + more.deep_view().take(i as int),
        decreases more@.len() - i,
    {
        let ghost before = out.deep_view();
        let row = more[i].copied();
        out.push(row);
        proof {
            assert(more.deep_view()[i as int] == row.deep_view());
            assert(out.deep_view() =~= before.push(row.deep_view()));
            assert(out.deep_view() =~= start + more.deep_view().take(i + 1));
        }
        i += 1;
    }
    proof {
        assert(more.deep_view().take(i as int) =~= more.deep_view());
    }
    out
}

/// A test that holds for every row keeps all rows.
pub proof fn lemma_filter_all<A>(s: Seq<A>, p: spec_fn(A) -> bool)
    requires
        forall|i: int| 0 <= i < s.len() ==> p(#[trigger] s[i]),
    ensures
        s.filter(p) == s,
    decreases s.len(),
{
    reveal_with_fuel(Seq::filter, 2);
    if s.len() > 0 {
        assert forall|i: int| 0 <= i < s.drop_last().len() implies p(#[trigger] s.drop_last()[i]) by {
            assert(s.drop_last()[i] == s[i]);
        }
        lemma_filter_all(s.drop_last(), p);
        assert(p(s[s.len() - 1]));
        assert(s.drop_last().push(s.last()) =~= s);
    } else {
        assert(s.filter(p) =~= s);
    }
}

/// Tests that agree on all rows keep the same rows.
pub proof fn lemma_filter_agree<M>(s: Seq<M>, p: spec_fn(M) -> bool, q: spec_fn(M) -> bool)
    requires
        forall|i: int| 0 <= i < s.len() ==> p(#[trigger] s[i]) == q(s[i]),
    ensures
        s.filter(p) == s.filter(q),
    decreases s.len(),
{
    reveal_with_fuel(Seq::filter, 2);
    if s.len() > 0 {
        assert forall|i: int| 0 <= i < s.drop_last().len() implies p(#[trigger] s.drop_last()[i])
            == q(s.drop_last()[i]) by {
            assert(s.drop_last()[i] == s[i]);
        }
        lemma_filter_agree(s.drop_last(), p, q);
        assert(p(s[s.len() - 1]) == q(s[s.len() - 1]));
    }
}

/// Two tests in turn keep the rows for which both hold.
pub proof fn lemma_filter_twice<M>(s: Seq<M>, p: spec_fn(M) -> bool, q: spec_fn(M) -> bool)
    ensures
        s.filter(p).filter(q) == s.filter(|x: M| p(x) && q(x)),
    decreases s.len(),
{
    reveal_with_fuel(Seq::filter, 2);
    if s.len() > 0 {
        lemma_filter_twice(s.drop_last(), p, q);
        if p(s.last()) {
            let front = s.drop_last().filter(p);
            assert(front.push(s.last()).drop_last() =~= front);
            assert(front.push(s.last()).last() == s.last());
        }
    }
}

/// What is chosen from a list is what a value of the list gives.
pub proof fn lemma_filter_map_contains<A, B>(s: Seq<A>, f: spec_fn(A) -> Option<B>, x: B)
    ensures
        s.filter_map(f).contains(x) <==> exists|i: int|
            0 <= i < s.len() && f(#[trigger] s[i]) == Some(x),
    decreases s.len(),
{
    reveal_with_fuel(Seq::filter_map, 2);
    if s.len() > 0 {
        let front = s.drop_last();
        lemma_filter_map_contains(front, f, x);
        let out = s.filter_map(f);
        let before = front.filter_map(f);
        assert(out == (match f(s.last()) {
            Some(y) => before.push(y),
            None => before,
        }));
        if before.contains(x) {
            let k = choose|k: int| 0 <= k < before.len() && before[k] == x;
            assert(out[k] == x);
            let i = choose|i: int| 0 <= i < front.len() && f(#[trigger] front[i]) == Some(x);
            assert(s[i] == front[i]);
        }
        if f(s.last()) == Some(x) {
            assert(out[before.len() as int] == x);
            assert(f(s[s.len() - 1]) == Some(x));
        }
        if out.contains(x) && !before.contains(x) {
            let k = choose|k: int| 0 <= k < out.len() && out[k] == x;
            if k < before.len() {
                assert(before[k] == x);
            }
            assert(f(s[s.len() - 1]) == Some(x));
        }
        if exists|i: int| 0 <= i < s.len() && f(#[trigger] s[i]) == Some(x) {
            let i = choose|i: int| 0 <= i < s.len() && f(#[trigger] s[i]) == Some(x);
            if i < front.len() {
                assert(f(front[i]) == Some(x));
            }
        }
    }
}

/// Two lists one behind the other hold what either holds.
pub proof fn lemma_concat_contains<A>(a: Seq<A>, b: Seq<A>, x: A)
    ensures
        (a + b).contains(x) <==> a.contains(x) || b.contains(x),
{
    if a.contains(x) {
        let i = choose|i: int| 0 <= i < a.len() && a[i] == x;
        assert((a + b)[i] == x);
    }
    if b.contains(x) {
        let i = choose|i: int| 0 <= i < b.len() && b[i] == x;
        assert((a + b)[a.len() + i] == x);
    }
    if (a + b).contains(x) {
        let i = choose|i: int| 0 <= i < (a + b).len() && (a + b)[i] == x;
        if i < a.len() {
            assert(a[i] == x);
        } else {
            assert(b[i - a.len()] == x);
        }
    }
}

/// Lists with the same values, each as often, hold the same values.
pub proof fn lemma_same_values<A>(a: Seq<A>, b: Seq<A>)
    requires
        a.to_multiset() == b.to_multiset(),
    ensures
        forall|x: A| #[trigger] a.contains(x) <==> b.contains(x),
{
    broadcast use vstd::seq_lib::group_to_multiset_ensures;

    assert forall|x: A| #[trigger] a.contains(x) <==> b.contains(x) by {
        assert(a.contains(x) <==> a.to_multiset().count(x) > 0);
        assert(b.contains(x) <==> b.to_multiset().count(x) > 0);
    }
}

} // verus!
