//! Stable sorting by a given order.

use crate::seqs::views;
use crate::text::{chars_eq, lex_le, lex_lt_exec, to_chars};
use vstd::prelude::*;

verus! {

/// `s`, which is in order, with `x` put behind the last element that may
/// stand before it.
pub open spec fn insert_sorted<T>(s: Seq<T>, x: T, le: spec_fn(T, T) -> bool) -> Seq<T>
    decreases s.len(),
{
    if s.len() == 0 || le(s.last(), x) {
        s.push(x)
    } else {
        insert_sorted(s.drop_last(), x, le).push(s.last())
    }
}

/// The elements of `s` in the order `le`; elements that `le` ranks alike
/// keep the order they had in `s`.
pub open spec fn sorted_by<T>(s: Seq<T>, le: spec_fn(T, T) -> bool) -> Seq<T>
    decreases s.len(),
{
    if s.len() == 0 {
        s
    } else {
        insert_sorted(sorted_by(s.drop_last(), le), s.last(), le)
    }
}

/// Every element of `s` may stand before each that follows it.
pub open spec fn in_order<T>(s: Seq<T>, le: spec_fn(T, T) -> bool) -> bool {
    forall|i: int, j: int| 0 <= i < j < s.len() ==> le(s[i], s[j])
}

/// Any two elements are comparable.
pub open spec fn total<T>(le: spec_fn(T, T) -> bool) -> bool {
    forall|a: T, b: T| #[trigger] le(a, b) || le(b, a)
}

/// `le` carries over a middle element.
pub open spec fn transitive<T>(le: spec_fn(T, T) -> bool) -> bool {
    forall|a: T, b: T, c: T| #[trigger] le(a, b) && #[trigger] le(b, c) ==> le(a, c)
}

/// Putting `x` at the place found by scanning from the end is the sorted
/// insertion.
pub proof fn lemma_insert_at<T>(s: Seq<T>, x: T, le: spec_fn(T, T) -> bool, p: int)
    requires
        0 <= p <= s.len(),
        p > 0 ==> le(s[p - 1], x),
        forall|k: int| p <= k < s.len() ==> !le(s[k], x),
    ensures
        insert_sorted(s, x, le) == s.insert(p, x),
    decreases s.len(),
{
    if p == s.len() {
        assert(s.insert(p, x) =~= s.push(x));
    } else {
        lemma_insert_at(s.drop_last(), x, le, p);
        assert(s.drop_last().insert(p, x).push(s.last()) =~= s.insert(p, x));
    }
}

/// Sorted insertion keeps the elements and adds `x`.
pub proof fn lemma_insert_sorted_multiset<T>(s: Seq<T>, x: T, le: spec_fn(T, T) -> bool)
    ensures
        insert_sorted(s, x, le).to_multiset() == s.to_multiset().insert(x),
        insert_sorted(s, x, le).len() == s.len() + 1,
    decreases s.len(),
{
    broadcast use vstd::seq_lib::group_to_multiset_ensures;

    if s.len() == 0 || le(s.last(), x) {
    } else {
        lemma_insert_sorted_multiset(s.drop_last(), x, le);
        assert(s.drop_last().push(s.last()) =~= s);
        assert(insert_sorted(s, x, le).to_multiset() =~= s.to_multiset().insert(x));
    }
}

/// Sorting keeps every element, as often as it occurred.
pub proof fn lemma_sorted_by_multiset<T>(s: Seq<T>, le: spec_fn(T, T) -> bool)
    ensures
        sorted_by(s, le).to_multiset() == s.to_multiset(),
        sorted_by(s, le).len() == s.len(),
    decreases s.len(),
{
    broadcast use vstd::seq_lib::group_to_multiset_ensures;

    if s.len() > 0 {
        lemma_sorted_by_multiset(s.drop_last(), le);
        lemma_insert_sorted_multiset(sorted_by(s.drop_last(), le), s.last(), le);
        assert(s.drop_last().push(s.last()) =~= s);
    }
}

/// Sorting neither loses nor invents an element.
pub proof fn lemma_sorted_by_contains<T>(s: Seq<T>, le: spec_fn(T, T) -> bool, x: T)
    ensures
        sorted_by(s, le).contains(x) <==> s.contains(x),
{
    broadcast use vstd::seq_lib::group_to_multiset_ensures;

    lemma_sorted_by_multiset(s, le);
    assert(sorted_by(s, le).contains(x) <==> sorted_by(s, le).to_multiset().count(x) > 0);
    assert(s.contains(x) <==> s.to_multiset().count(x) > 0);
}

/// Sorted insertion into a sequence in order leaves it in order.
pub proof fn lemma_insert_sorted_in_order<T>(s: Seq<T>, x: T, le: spec_fn(T, T) -> bool)
    requires
        total(le),
        transitive(le),
        in_order(s, le),
    ensures
        in_order(insert_sorted(s, x, le), le),
        forall|y: T| insert_sorted(s, x, le).contains(y) ==> y == x || s.contains(y),
    decreases s.len(),
{
    let r = insert_sorted(s, x, le);
    if s.len() == 0 || le(s.last(), x) {
        assert forall|i: int, j: int| 0 <= i < j < r.len() implies le(r[i], r[j]) by {
            if j == s.len() {
                if i < s.len() - 1 {
                    assert(le(s[i], s.last()));
                }
            }
        }
        assert forall|y: T| r.contains(y) implies y == x || s.contains(y) by {
            let k = choose|k: int| 0 <= k < r.len() && r[k] == y;
            if k < s.len() {
                assert(s[k] == y);
            }
        }
    } else {
        let init = s.drop_last();
        assert(in_order(init, le));
        lemma_insert_sorted_in_order(init, x, le);
        let q = insert_sorted(init, x, le);
        lemma_insert_sorted_multiset(init, x, le);
        assert(r == q.push(s.last()));
        assert(le(x, s.last()));
        assert forall|y: T| q.contains(y) implies le(y, s.last()) by {
            if y != x {
                assert(init.contains(y));
                let k = choose|k: int| 0 <= k < init.len() && init[k] == y;
                assert(le(s[k], s[s.len() - 1]));
            }
        }
        assert forall|i: int, j: int| 0 <= i < j < r.len() implies le(r[i], r[j]) by {
            if j == q.len() {
                assert(q.contains(q[i]));
            } else {
                assert(le(q[i], q[j]));
            }
        }
        assert forall|y: T| r.contains(y) implies y == x || s.contains(y) by {
            let k = choose|k: int| 0 <= k < r.len() && r[k] == y;
            if k < q.len() {
                assert(q.contains(y));
                if y != x {
                    assert(init.contains(y));
                    let m = choose|m: int| 0 <= m < init.len() && init[m] == y;
                    assert(s[m] == y);
                }
            } else {
                assert(s[s.len() - 1] == y);
            }
        }
    }
}

/// Under a total and transitive order the sorted sequence is in order.
pub proof fn lemma_sorted_by_in_order<T>(s: Seq<T>, le: spec_fn(T, T) -> bool)
    requires
        total(le),
        transitive(le),
    ensures
        in_order(sorted_by(s, le), le),
    decreases s.len(),
{
    if s.len() > 0 {
        lemma_sorted_by_in_order(s.drop_last(), le);
        lemma_insert_sorted_in_order(sorted_by(s.drop_last(), le), s.last(), le);
    }
}

/// Sorted insertion among elements that rank alike puts the new one behind
/// the others.
pub proof fn lemma_insert_sorted_stable<T>(
    s: Seq<T>,
    x: T,
    le: spec_fn(T, T) -> bool,
    keep: spec_fn(T) -> bool,
)
    requires
        forall|a: T, b: T| keep(a) && keep(b) ==> #[trigger] le(a, b),
    ensures
        insert_sorted(s, x, le).filter(keep) == if keep(x) {
            s.filter(keep).push(x)
        } else {
            s.filter(keep)
        },
    decreases s.len(),
{
    reveal(Seq::filter);
    if s.len() == 0 || le(s.last(), x) {
        assert(s.push(x).drop_last() =~= s);
    } else {
        let q = insert_sorted(s.drop_last(), x, le);
        lemma_insert_sorted_stable(s.drop_last(), x, le, keep);
        assert(q.push(s.last()).drop_last() =~= q);
        if keep(x) && keep(s.last()) {
            assert(le(s.last(), x));
        }
    }
}

/// Sorting is stable: elements that rank alike stand in the sorted
/// sequence in the order they had before.
pub proof fn lemma_sorted_by_stable<T>(s: Seq<T>, le: spec_fn(T, T) -> bool, keep: spec_fn(T) -> bool)
    requires
        forall|a: T, b: T| keep(a) && keep(b) ==> #[trigger] le(a, b),
    ensures
        sorted_by(s, le).filter(keep) == s.filter(keep),
    decreases s.len(),
{
    reveal(Seq::filter);
    if s.len() > 0 {
        lemma_sorted_by_stable(s.drop_last(), le, keep);
        lemma_insert_sorted_stable(sorted_by(s.drop_last(), le), s.last(), le, keep);
    }
}

/// Sorted insertion goes through a mapping that respects the orders.
pub proof fn lemma_insert_sorted_map<A, B>(
    s: Seq<A>,
    x: A,
    f: spec_fn(A) -> B,
    le_a: spec_fn(A, A) -> bool,
    le_b: spec_fn(B, B) -> bool,
)
    requires
        forall|x: A, y: A| #[trigger] le_a(x, y) == le_b(f(x), f(y)),
    ensures
        insert_sorted(s, x, le_a).map_values(f) == insert_sorted(s.map_values(f), f(x), le_b),
    decreases s.len(),
{
    let t = s.map_values(f);
    if s.len() == 0 {
        assert(s.push(x).map_values(f) =~= t.push(f(x)));
    } else {
        assert(t.last() == f(s.last()));
        assert(le_a(s.last(), x) == le_b(f(s.last()), f(x)));
        assert(t.drop_last() =~= s.drop_last().map_values(f));
        if le_a(s.last(), x) {
            assert(s.push(x).map_values(f) =~= t.push(f(x)));
        } else {
            lemma_insert_sorted_map(s.drop_last(), x, f, le_a, le_b);
            assert(insert_sorted(s.drop_last(), x, le_a).push(s.last()).map_values(f)
                =~= insert_sorted(s.drop_last(), x, le_a).map_values(f).push(f(s.last())));
        }
    }
}

/// Sorting goes through a mapping that respects the orders: to sort and
/// then map is to map and then sort.
pub proof fn lemma_sorted_by_map<A, B>(
    s: Seq<A>,
    f: spec_fn(A) -> B,
    le_a: spec_fn(A, A) -> bool,
    le_b: spec_fn(B, B) -> bool,
)
    requires
        forall|x: A, y: A| #[trigger] le_a(x, y) == le_b(f(x), f(y)),
    ensures
        sorted_by(s, le_a).map_values(f) == sorted_by(s.map_values(f), le_b),
    decreases s.len(),
{
    let t = s.map_values(f);
    if s.len() == 0 {
        assert(s.map_values(f) =~= Seq::<B>::empty());
        assert(sorted_by(s, le_a).map_values(f) =~= sorted_by(t, le_b));
    } else {
        lemma_sorted_by_map(s.drop_last(), f, le_a, le_b);
        lemma_insert_sorted_map(sorted_by(s.drop_last(), le_a), s.last(), f, le_a, le_b);
        assert(t.drop_last() =~= s.drop_last().map_values(f));
        assert(t.last() == f(s.last()));
    }
}

/// Sorts `items` by `le`, keeping the order of elements that rank alike.
pub(crate) fn sort_by<T, F: Fn(&T, &T) -> bool>(
    items: Vec<T>,
    le: F,
    Ghost(rel): Ghost<spec_fn(T, T) -> bool>,
) -> (out: Vec<T>)
    requires
        forall|a: &T, b: &T| le.requires((a, b)),
        forall|a: &T, b: &T, r: bool| le.ensures((a, b), r) ==> r == rel(*a, *b),
    ensures
        out@ == sorted_by(items@, rel),
{
    let ghost orig = items@;
    let mut v = items;
    let mut i: usize = 0;
    assert(orig.take(0) =~= Seq::<T>::empty());
    assert(v@ =~= sorted_by(orig.take(0), rel) + orig.skip(0));
    while i < v.len()
        invariant
            i <= v.len(),
            v.len() == orig.len(),
            v@ == sorted_by(orig.take(i as int), rel) + orig.skip(i as int),
            forall|a: &T, b: &T| le.requires((a, b)),
            forall|a: &T, b: &T, r: bool| le.ensures((a, b), r) ==> r == rel(*a, *b),
        decreases v.len() - i,
    {
        let ghost prefix = sorted_by(orig.take(i as int), rel);
        proof {
            lemma_sorted_by_multiset(orig.take(i as int), rel);
            assert(prefix.len() == i);
        }
        let mut p: usize = i;
        while p > 0 && !le(&v[p - 1], &v[i])
            invariant
                p <= i,
                i < v.len(),
                v.len() == orig.len(),
                prefix.len() == i,
                v@ == prefix + orig.skip(i as int),
                forall|k: int| p <= k < i ==> !rel(prefix[k], orig[i as int]),
                forall|a: &T, b: &T| le.requires((a, b)),
                forall|a: &T, b: &T, r: bool| le.ensures((a, b), r) ==> r == rel(*a, *b),
            decreases p,
        {
            assert(v@[p - 1] == prefix[p - 1]);
            assert(v@[i as int] == orig[i as int]);
            p = p - 1;
        }
        proof {
            assert(v@[i as int] == orig[i as int]);
            if p > 0 {
                assert(v@[p - 1] == prefix[p - 1]);
            }
            lemma_insert_at(prefix, orig[i as int], rel, p as int);
            assert(orig.take(i + 1).drop_last() =~= orig.take(i as int));
            assert(orig.take(i + 1).last() == orig[i as int]);
        }
        let x = v.remove(i);
        v.insert(p, x);
        i = i + 1;
        assert(v@ =~= sorted_by(orig.take(i as int), rel) + orig.skip(i as int));
    }
    assert(orig.take(orig.len() as int) =~= orig);
    assert(v@ =~= sorted_by(orig, rel));
    v
}

/// The order of texts by their code points.
pub open spec fn by_text() -> spec_fn(Seq<char>, Seq<char>) -> bool {
    |a: Seq<char>, b: Seq<char>| lex_le(a, b)
}

fn text_le(a: &String, b: &String) -> (r: bool)
    ensures
        r == lex_le(a@, b@),
{
    let x = to_chars(a.as_str());
    let y = to_chars(b.as_str());
    chars_eq(&x, &y) || lex_lt_exec(&x, &y)
}

/// Sorts texts by their code points.
pub fn sort_texts(items: Vec<String>) -> (out: Vec<String>)
    ensures
        views(out@) == sorted_by(views(items@), by_text()),
{
    let ghost rel = |a: String, b: String| lex_le(a@, b@);
    let out = sort_by(items, text_le, Ghost(rel));
    proof {
        lemma_sorted_by_map(items@, |c: String| c@, rel, by_text());
    }
    out
}

} // verus!
