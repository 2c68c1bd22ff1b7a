//! Orders on texts and stable sorting.

use vstd::prelude::*;

verus! {

/// Whether one text comes before another, compared character by character.
/// This is also the order of their UTF-8 bytes.
pub open spec fn before(a: Seq<char>, b: Seq<char>) -> bool
    decreases a.len(),
{
    if b.len() == 0 {
        false
    } else if a.len() == 0 {
        true
    } else if a[0] != b[0] {
        a[0] < b[0]
    } else {
        before(a.skip(1), b.skip(1))
    }
}

/// Whether one text comes before another or is equal to it.
pub open spec fn not_after(a: Seq<char>, b: Seq<char>) -> bool {
    !before(b, a)
}

/// Two texts are equal or one comes before the other, but not both.
pub proof fn lemma_before_total(a: Seq<char>, b: Seq<char>)
    ensures
        a == b ==> !before(a, b),
        a != b ==> before(a, b) != before(b, a),
    decreases a.len(),
{
    if a.len() > 0 && b.len() > 0 && a[0] == b[0] {
        lemma_before_total(a.skip(1), b.skip(1));
        if a.skip(1) == b.skip(1) {
            assert(a =~= b) by {
                assert forall|i: int| 0 <= i < a.len() implies a[i] == b[i] by {
                    if i > 0 {
                        assert(a.skip(1)[i - 1] == b.skip(1)[i - 1]);
                    }
                }
            }
        }
    } else if a.len() == 0 && b.len() == 0 {
        assert(a =~= b);
    }
}

/// The order of texts is transitive.
pub proof fn lemma_before_transitive(a: Seq<char>, b: Seq<char>, c: Seq<char>)
    requires
        before(a, b),
        before(b, c),
    ensures
        before(a, c),
    decreases a.len(),
{
    if a.len() > 0 && b.len() > 0 && c.len() > 0 && a[0] == b[0] && b[0] == c[0] {
        lemma_before_transitive(a.skip(1), b.skip(1), c.skip(1));
    }
}

/// Not coming after is transitive.
pub proof fn lemma_not_after_transitive(a: Seq<char>, b: Seq<char>, c: Seq<char>)
    requires
        not_after(a, b),
        not_after(b, c),
    ensures
        not_after(a, c),
{
    lemma_before_total(a, b);
    lemma_before_total(b, c);
    lemma_before_total(a, c);
    if a != b && b != c {
        lemma_before_transitive(a, b, c);
    }
}

/// Compares two texts.
pub fn comes_before(a: &[char], b: &[char]) -> (r: bool)
    ensures
        r == before(a@, b@),
{
    let mut i: usize = 0;
    proof {
        assert(a@.skip(0) =~= a@);
        assert(b@.skip(0) =~= b@);
    }
    while i < a.len() && i < b.len()
        invariant
            i <= a@.len(),
            i <= b@.len(),
            before(a@, b@) == before(a@.skip(i as int), b@.skip(i as int)),
        decreases a@.len() - i,
    {
        if a[i] != b[i] {
            return a[i] < b[i];
        }
        proof {
            assert(a@.skip(i as int).skip(1) =~= a@.skip(i + 1));
            assert(b@.skip(i as int).skip(1) =~= b@.skip(i + 1));
        }
        i += 1;
    }
    i < b.len()
}

// ---------------------------------------------------------------------
// Sorting
// ---------------------------------------------------------------------

/// A value put into an ordered list, behind all values that do not come
/// after it.
pub open spec fn inserted<T>(s: Seq<T>, x: T, le: spec_fn(T, T) -> bool) -> Seq<T>
    decreases s.len(),
{
    if s.len() == 0 || le(s.last(), x) {
        s.push(x)
    } else {
        inserted(s.drop_last(), x, le).push(s.last())
    }
}

/// A list in the given order; equal values keep their places.
pub open spec fn sorted<T>(s: Seq<T>, le: spec_fn(T, T) -> bool) -> Seq<T>
    decreases s.len(),
{
    if s.len() == 0 {
        s
    } else {
        inserted(sorted(s.drop_last(), le), s.last(), le)
    }
}

/// A total order, in which different values may be equal.
pub open spec fn is_order<T>(le: spec_fn(T, T) -> bool) -> bool {
    &&& forall|a: T, b: T| #[trigger] le(a, b) || le(b, a)
    &&& forall|a: T, b: T, c: T| #[trigger] le(a, b) && #[trigger] le(b, c) ==> le(a, c)
}

/// Whether a list is in an order.
pub open spec fn ordered<T>(s: Seq<T>, le: spec_fn(T, T) -> bool) -> bool {
    forall|i: int, j: int| 0 <= i < j < s.len() ==> le(#[trigger] s[i], #[trigger] s[j])
}

proof fn lemma_inserted<T>(s: Seq<T>, x: T, le: spec_fn(T, T) -> bool)
    requires
        is_order(le),
        ordered(s, le),
    ensures
        ordered(inserted(s, x, le), le),
        inserted(s, x, le).to_multiset() == s.to_multiset().insert(x),
        inserted(s, x, le).len() == s.len() + 1,
    decreases s.len(),
{
    broadcast use vstd::seq_lib::group_to_multiset_ensures;

    let r = inserted(s, x, le);
    if s.len() == 0 || le(s.last(), x) {
        assert forall|i: int, j: int| 0 <= i < j < r.len() implies le(
            #[trigger] r[i],
            #[trigger] r[j],
        ) by {
            if j == s.len() && i < s.len() - 1 {
                assert(le(s[i], s[s.len() - 1]));
            }
        }
    } else {
        let front = s.drop_last();
        lemma_inserted(front, x, le);
        let inner = inserted(front, x, le);
        assert forall|i: int, j: int| 0 <= i < j < r.len() implies le(
            #[trigger] r[i],
            #[trigger] r[j],
        ) by {
            if j == inner.len() {
                let e = inner[i];
                assert(inner.to_multiset().contains(e)) by {
                    assert(inner.contains(e));
                }
                assert(e == x || front.to_multiset().contains(e));
                if e != x {
                    assert(front.contains(e));
                    let k = choose|k: int| 0 <= k < front.len() && front[k] == e;
                    assert(s[k] == e);
                    assert(le(s[k], s[s.len() - 1]));
                } else {
                    assert(le(s.last(), x) || le(x, s.last()));
                }
            }
        }
        assert(s =~= front.push(s.last()));
        assert(inner.push(s.last()).to_multiset() =~= inner.to_multiset().insert(s.last()));
        assert(s.to_multiset() =~= front.to_multiset().insert(s.last()));
        assert(r.to_multiset() =~= s.to_multiset().insert(x));
    }
}

/// Sorting puts a list in order and keeps its values.
pub proof fn lemma_sorted<T>(s: Seq<T>, le: spec_fn(T, T) -> bool)
    requires
        is_order(le),
    ensures
        ordered(sorted(s, le), le),
        sorted(s, le).to_multiset() == s.to_multiset(),
        sorted(s, le).len() == s.len(),
    decreases s.len(),
{
    broadcast use vstd::seq_lib::group_to_multiset_ensures;

    if s.len() > 0 {
        lemma_sorted(s.drop_last(), le);
        lemma_inserted(sorted(s.drop_last(), le), s.last(), le);
        assert(s =~= s.drop_last().push(s.last()));
    }
}

/// Putting a value in its place, and then testing, is testing first.
proof fn lemma_inserted_filter<T>(
    s: Seq<T>,
    x: T,
    le: spec_fn(T, T) -> bool,
    q: spec_fn(T) -> bool,
)
    requires
        is_order(le),
        ordered(s, le),
    ensures
        inserted(s, x, le).filter(q) == (if q(x) {
            inserted(s.filter(q), x, le)
        } else {
            s.filter(q)
        }),
    decreases s.len(),
{
    broadcast use Seq::lemma_filter_push;

    if s.len() == 0 {
        assert(s.filter(q) =~= s) by {
            reveal(Seq::filter);
        }
    } else if le(s.last(), x) {
        let kept = s.filter(q);
        if kept.len() > 0 {
            let e = kept.last();
            assert(kept.contains(e));
            s.lemma_filter_contains_rev(q, e);
            let i = choose|i: int| 0 <= i < s.len() && s[i] == e;
            if i < s.len() - 1 {
                assert(le(s[i], s[s.len() - 1]));
                assert(le(e, s.last()) && le(s.last(), x));
            }
            assert(le(e, x));
        }
    } else {
        let front = s.drop_last();
        assert forall|i: int, j: int| 0 <= i < j < front.len() implies le(
            #[trigger] front[i],
            #[trigger] front[j],
        ) by {
            assert(le(s[i], s[j]));
        }
        lemma_inserted_filter(front, x, le, q);
        assert(s =~= front.push(s.last()));
        if q(s.last()) {
            let kept = front.filter(q).push(s.last());
            assert(s.filter(q) == kept);
            assert(kept.drop_last() =~= front.filter(q));
        }
    }
}

/// Sorting and testing can be done in either order.
pub proof fn lemma_sorted_filter<T>(
    s: Seq<T>,
    le: spec_fn(T, T) -> bool,
    q: spec_fn(T) -> bool,
)
    requires
        is_order(le),
    ensures
        sorted(s, le).filter(q) == sorted(s.filter(q), le),
    decreases s.len(),
{
    broadcast use Seq::lemma_filter_push;

    if s.len() == 0 {
        assert(s.filter(q) =~= s) by {
            reveal(Seq::filter);
        }
    } else {
        let front = s.drop_last();
        lemma_sorted(front, le);
        lemma_sorted_filter(front, le, q);
        lemma_inserted_filter(sorted(front, le), s.last(), le, q);
        assert(s =~= front.push(s.last()));
        if q(s.last()) {
            let kept = front.filter(q).push(s.last());
            assert(s.filter(q) == kept);
            assert(kept.drop_last() =~= front.filter(q));
        }
    }
}

proof fn lemma_inserted_at<T>(s: Seq<T>, x: T, le: spec_fn(T, T) -> bool, p: int)
    requires
        0 <= p <= s.len(),
        forall|i: int| 0 <= i < p ==> le(#[trigger] s[i], x),
        forall|i: int| p <= i < s.len() ==> !le(#[trigger] s[i], x),
    ensures
        inserted(s, x, le) == s.insert(p, x),
    decreases s.len(),
{
    if s.len() == 0 || p == s.len() {
        assert(s.insert(p, x) =~= s.push(x));
    } else {
        lemma_inserted_at(s.drop_last(), x, le, p);
        assert(s.insert(p, x) =~= s.drop_last().insert(p, x).push(s.last()));
    }
}

proof fn lemma_inserted_map<T, M>(
    s: Seq<T>,
    x: T,
    le: spec_fn(T, T) -> bool,
    f: spec_fn(T) -> M,
    fle: spec_fn(M, M) -> bool,
)
    requires
        forall|a: T, b: T| #[trigger] le(a, b) == fle(f(a), f(b)),
    ensures
        inserted(s, x, le).map_values(f) == inserted(s.map_values(f), f(x), fle),
    decreases s.len(),
{
    let m = s.map_values(f);
    if s.len() == 0 || le(s.last(), x) {
        assert(s.push(x).map_values(f) =~= m.push(f(x)));
    } else {
        lemma_inserted_map(s.drop_last(), x, le, f, fle);
        let inner = inserted(s.drop_last(), x, le);
        assert(s.drop_last().map_values(f) =~= m.drop_last());
        assert(inner.push(s.last()).map_values(f) =~= inner.map_values(f).push(f(s.last())));
    }
}

/// Sorting commutes with a map that keeps the order.
pub proof fn lemma_sorted_map<T, M>(
    s: Seq<T>,
    le: spec_fn(T, T) -> bool,
    f: spec_fn(T) -> M,
    fle: spec_fn(M, M) -> bool,
)
    requires
        forall|a: T, b: T| #[trigger] le(a, b) == fle(f(a), f(b)),
    ensures
        sorted(s, le).map_values(f) == sorted(s.map_values(f), fle),
    decreases s.len(),
{
    if s.len() == 0 {
        assert(s.map_values(f) =~= Seq::<M>::empty());
        assert(sorted(s, le).map_values(f) =~= sorted(s.map_values(f), fle));
    } else {
        lemma_sorted_map(s.drop_last(), le, f, fle);
        lemma_inserted_map(sorted(s.drop_last(), le), s.last(), le, f, fle);
        assert(s.drop_last().map_values(f) =~= s.map_values(f).drop_last());
    }
}

/// Sorting a list with values behind it that come after all others, and are
/// in order, leaves these in place.
pub proof fn lemma_sorted_append<T>(s: Seq<T>, t: Seq<T>, le: spec_fn(T, T) -> bool)
    requires
        is_order(le),
        ordered(t, le),
        forall|i: int, j: int|
            0 <= i < s.len() && 0 <= j < t.len() ==> le(#[trigger] s[i], #[trigger] t[j]),
    ensures
        sorted(s + t, le) == sorted(s, le) + t,
    decreases t.len(),
{
    broadcast use vstd::seq_lib::group_to_multiset_ensures;

    if t.len() == 0 {
        assert(s + t =~= s);
        assert(sorted(s, le) + t =~= sorted(s, le));
    } else {
        let front = t.drop_last();
        assert forall|i: int, j: int| 0 <= i < s.len() && 0 <= j < front.len() implies le(
            #[trigger] s[i],
            #[trigger] front[j],
        ) by {
            assert(front[j] == t[j]);
        }
        assert forall|i: int, j: int| 0 <= i < j < front.len() implies le(
            #[trigger] front[i],
            #[trigger] front[j],
        ) by {
            assert(front[i] == t[i] && front[j] == t[j]);
        }
        lemma_sorted_append(s, front, le);
        assert((s + t).drop_last() =~= s + front);
        let so_far = sorted(s, le) + front;
        if so_far.len() > 0 {
            if front.len() > 0 {
                assert(le(t[t.len() - 2], t[t.len() - 1]));
            } else {
                lemma_sorted(s, le);
                let e = sorted(s, le).last();
                assert(sorted(s, le).contains(e));
                assert(sorted(s, le).to_multiset().contains(e));
                assert(s.to_multiset().contains(e));
                assert(s.contains(e));
                let i = choose|i: int| 0 <= i < s.len() && s[i] == e;
                assert(le(s[i], t[t.len() - 1]));
            }
        }
        assert(so_far.push(t.last()) =~= sorted(s, le) + t);
    }
}

/// An order that can be decided.
pub trait Ranking<T> {
    spec fn order() -> spec_fn(T, T) -> bool;

    proof fn laws()
        ensures
            is_order(Self::order()),
    ;

    fn in_order(a: &T, b: &T) -> (r: bool)
        ensures
            r == Self::order()(*a, *b),
    ;
}

/// Sorts a list; equal values keep their order.
pub fn sort<T, R: Ranking<T>>(v: Vec<T>) -> (out: Vec<T>)
    ensures
        out@ == sorted(v@, R::order()),
{
    let mut rest = v;
    let ghost all = v@;
    let ghost le = R::order();
    let mut out: Vec<T> = Vec::new();
    let mut backwards: Vec<T> = Vec::new();
    while rest.len() > 0
        invariant
            rest@.len() + backwards@.len() == all.len(),
            rest@ == all.take(rest@.len() as int),
            forall|i: int|
                0 <= i < backwards@.len() ==> backwards@[i] == all[all.len() - 1 - i],
        decreases rest@.len(),
    {
        match rest.pop() {
            Some(x) => {
                backwards.push(x);
            },
            None => {},
        }
    }
    proof {
        assert(sorted(all.take(0), R::order()) =~= out@);
    }
    while backwards.len() > 0
        invariant
            out@.len() + backwards@.len() == all.len(),
            le == R::order(),
            out@ == sorted(all.take(out@.len() as int), R::order()),
            forall|i: int|
                0 <= i < backwards@.len() ==> backwards@[i] == all[all.len() - 1 - i],
        decreases backwards@.len(),
    {
        let ghost n = out@.len() as int;
        match backwards.pop() {
            Some(x) => {
                proof {
                    R::laws();
                    lemma_sorted(all.take(n), R::order());
                    assert(all.take(n + 1).drop_last() =~= all.take(n));
                    assert(all.take(n + 1).last() == x);
                }
                let mut low: usize = 0;
                let mut high: usize = out.len();
                while low < high
                    invariant
                        low <= high <= out@.len(),
                        le == R::order(),
                        is_order(le),
                        ordered(out@, le),
                        forall|i: int| 0 <= i < low ==> le(#[trigger] out@[i], x),
                        forall|i: int| high <= i < out@.len() ==> !le(#[trigger] out@[i], x),
                    decreases high - low,
                {
                    let mid: usize = low + (high - low) / 2;
                    if R::in_order(&out[mid], &x) {
                        proof {
                            assert forall|i: int| 0 <= i < mid + 1 implies le(
                                #[trigger] out@[i],
                                x,
                            ) by {
                                if i < mid {
                                    assert(le(out@[i], out@[mid as int]));
                                }
                            }
                        }
                        low = mid + 1;
                    } else {
                        proof {
                            assert forall|i: int| mid <= i < out@.len() implies !le(
                                #[trigger] out@[i],
                                x,
                            ) by {
                                if mid < i && le(out@[i], x) {
                                    assert(le(out@[mid as int], out@[i]));
                                }
                            }
                        }
                        high = mid;
                    }
                }
                proof {
                    lemma_inserted_at(out@, x, le, low as int);
                }
                out.insert(low, x);
            },
            None => {},
        }
    }
    proof {
        assert(all.take(out@.len() as int) =~= all);
    }
    out
}

} // verus!
