//! Stable ordering of records by a key made of a rank, highest first, and a
//! label in lexicographic order.
use vstd::prelude::*;

use crate::text::{lemma_lex_le_total, lemma_lex_le_transitive, lex_le, lex_le_str};

verus! {

/// A record together with its sort key.
pub struct Keyed<T> {
    pub rank: u8,
    pub label: String,
    pub item: T,
}

/// A sort key and its record: a rank, highest first, then a label in
/// lexicographic order.
pub type KeyedView<T> = (u8, Seq<char>, T);

/// `a` may stand before `b`: higher rank first, equal ranks by label.
pub open spec fn keyed_le<T>(a: KeyedView<T>, b: KeyedView<T>) -> bool {
    a.0 > b.0 || (a.0 == b.0 && lex_le(a.1, b.1))
}

/// `x` inserted into `s` after every element that may stand before it.
pub open spec fn insert_sorted<T>(s: Seq<KeyedView<T>>, x: KeyedView<T>) -> Seq<KeyedView<T>>
    decreases s.len(),
{
    if s.len() == 0 {
        seq![x]
    } else if keyed_le(s.last(), x) {
        s.push(x)
    } else {
        insert_sorted(s.drop_last(), x).push(s.last())
    }
}

/// The stable sort of `s` by key: the order that `slice::sort_by` gives.
pub open spec fn stable_sort<T>(s: Seq<KeyedView<T>>) -> Seq<KeyedView<T>>
    decreases s.len(),
{
    if s.len() == 0 {
        s
    } else {
        insert_sorted(stable_sort(s.drop_last()), s.last())
    }
}

/// The records of a keyed sequence, without their keys.
pub open spec fn items_of<T>(s: Seq<KeyedView<T>>) -> Seq<T> {
    Seq::new(s.len(), |i: int| s[i].2)
}

impl<T> Keyed<T> {
    /// The key, as a rank and a character sequence, and the record.
    pub open spec fn kview(self) -> KeyedView<T> {
        (self.rank, self.label@, self.item)
    }
}

/// The keys and records of a vector of keyed records.
pub open spec fn kviews<T>(s: Seq<Keyed<T>>) -> Seq<KeyedView<T>> {
    Seq::new(s.len(), |i: int| s[i].kview())
}

proof fn lemma_insert_at<T>(s: Seq<KeyedView<T>>, x: KeyedView<T>, p: int)
    requires
        0 <= p <= s.len(),
        p == 0 || keyed_le(s[p - 1], x),
        forall|j: int| p <= j < s.len() ==> !keyed_le(#[trigger] s[j], x),
    ensures
        insert_sorted(s, x) == s.take(p).push(x) + s.skip(p),
    decreases s.len(),
{
    if s.len() == 0 {
        assert(s.take(p).push(x) + s.skip(p) =~= seq![x]);
    } else if keyed_le(s.last(), x) {
        assert(p == s.len());
        assert(s.take(p).push(x) + s.skip(p) =~= s.push(x));
    } else {
        let d = s.drop_last();
        lemma_insert_at(d, x, p);
        assert(d.take(p).push(x) + d.skip(p) + seq![s.last()] =~= s.take(p).push(x) + s.skip(p));
        assert((d.take(p).push(x) + d.skip(p)).push(s.last()) =~= d.take(p).push(x) + d.skip(p)
            + seq![s.last()]);
    }
}

/// Any two keys are ordered one way or the other.
pub proof fn lemma_keyed_le_total<T>(a: KeyedView<T>, b: KeyedView<T>)
    ensures
        keyed_le(a, b) || keyed_le(b, a),
{
    lemma_lex_le_total(a.1, b.1);
}

/// The key order is transitive.
pub proof fn lemma_keyed_le_transitive<T>(a: KeyedView<T>, b: KeyedView<T>, c: KeyedView<T>)
    requires
        keyed_le(a, b),
        keyed_le(b, c),
    ensures
        keyed_le(a, c),
{
    if a.0 == b.0 && b.0 == c.0 {
        lemma_lex_le_transitive(a.1, b.1, c.1);
    }
}

/// Inserting puts `x` at some position and keeps the order of the rest.
pub proof fn lemma_insert_shape<T>(s: Seq<KeyedView<T>>, x: KeyedView<T>)
    ensures
        exists|p: int|
            0 <= p <= s.len() && insert_sorted(s, x) == s.take(p).push(x) + s.skip(p),
    decreases s.len(),
{
    if s.len() == 0 {
        assert(insert_sorted(s, x) == s.take(0).push(x) + s.skip(0));
    } else if keyed_le(s.last(), x) {
        assert(insert_sorted(s, x) == s.take(s.len() as int).push(x) + s.skip(s.len() as int));
    } else {
        let d = s.drop_last();
        lemma_insert_shape(d, x);
        let p = choose|p: int|
            0 <= p <= d.len() && insert_sorted(d, x) == d.take(p).push(x) + d.skip(p);
        assert(insert_sorted(s, x) =~= s.take(p).push(x) + s.skip(p));
    }
}

/// Keys in order: each may stand before every later one.
pub open spec fn is_sorted<T>(s: Seq<KeyedView<T>>) -> bool {
    forall|i: int, j: int| 0 <= i < j < s.len() ==> keyed_le(s[i], s[j])
}

/// Inserting into an ordered sequence keeps it ordered.
pub proof fn lemma_insert_sorted_keeps_order<T>(s: Seq<KeyedView<T>>, x: KeyedView<T>)
    requires
        is_sorted(s),
    ensures
        is_sorted(insert_sorted(s, x)),
    decreases s.len(),
{
    if s.len() == 0 {
    } else if keyed_le(s.last(), x) {
        let r = s.push(x);
        assert forall|i: int, j: int| 0 <= i < j < r.len() implies keyed_le(r[i], r[j]) by {
            if j == s.len() && i < s.len() - 1 {
                lemma_keyed_le_transitive(s[i], s.last(), x);
            }
        }
    } else {
        let d = s.drop_last();
        let last = s.last();
        lemma_insert_sorted_keeps_order(d, x);
        lemma_keyed_le_total(last, x);
        lemma_insert_shape(d, x);
        let inner = insert_sorted(d, x);
        let p = choose|p: int|
            0 <= p <= d.len() && inner == d.take(p).push(x) + d.skip(p);
        let r = inner.push(last);
        assert forall|i: int, j: int| 0 <= i < j < r.len() implies keyed_le(r[i], r[j]) by {
            if j == inner.len() {
                if i < p {
                    assert(r[i] == s[i]);
                } else if i == p {
                    assert(r[i] == x);
                } else {
                    assert(r[i] == s[i - 1]);
                }
            }
        }
    }
}

/// The stable sort puts the keys in order.
pub proof fn lemma_stable_sort_sorted<T>(s: Seq<KeyedView<T>>)
    ensures
        is_sorted(stable_sort(s)),
    decreases s.len(),
{
    if s.len() > 0 {
        lemma_stable_sort_sorted(s.drop_last());
        lemma_insert_sorted_keeps_order(stable_sort(s.drop_last()), s.last());
    }
}

/// Sorting keeps every element, each as often as it occurs.
pub proof fn lemma_stable_sort_permutes<T>(s: Seq<KeyedView<T>>)
    ensures
        stable_sort(s).to_multiset() == s.to_multiset(),
        stable_sort(s).len() == s.len(),
    decreases s.len(),
{
    broadcast use vstd::seq_lib::group_to_multiset_ensures;

    if s.len() > 0 {
        let d = s.drop_last();
        lemma_stable_sort_permutes(d);
        let t = stable_sort(d);
        lemma_insert_shape(t, s.last());
        let p = choose|p: int|
            0 <= p <= t.len() && insert_sorted(t, s.last()) == t.take(p).push(s.last()) + t.skip(
                p,
            );
        assert(insert_sorted(t, s.last()) =~= t.insert(p, s.last()));
        assert(s =~= d.push(s.last()));
    }
}

/// Every element of the sorted sequence is one of the input, and the other
/// way round; two positions of the sorted sequence hold the elements of two
/// positions of the input.
pub proof fn lemma_stable_sort_pairwise<T>(s: Seq<KeyedView<T>>, apart: spec_fn(T, T) -> bool)
    requires
        forall|i: int, j: int|
            0 <= i < s.len() && 0 <= j < s.len() && i != j ==> apart(s[i].2, s[j].2),
    ensures
        forall|i: int, j: int|
            0 <= i < stable_sort(s).len() && 0 <= j < stable_sort(s).len() && i != j ==> apart(
                stable_sort(s)[i].2,
                stable_sort(s)[j].2,
            ),
        stable_sort(s).len() == s.len(),
        forall|k: int|
            0 <= k < stable_sort(s).len() ==> exists|i: int|
                0 <= i < s.len() && #[trigger] stable_sort(s)[k] == s[i],
    decreases s.len(),
{
    if s.len() > 0 {
        let d = s.drop_last();
        let x = s.last();
        lemma_stable_sort_pairwise(d, apart);
        let t = stable_sort(d);
        lemma_insert_shape(t, x);
        let p = choose|p: int| 0 <= p <= t.len() && insert_sorted(t, x) == t.take(p).push(x) + t.skip(p);
        let r = insert_sorted(t, x);
        assert forall|k: int| 0 <= k < r.len() implies exists|i: int|
            0 <= i < s.len() && #[trigger] r[k] == s[i] by {
            if k < p {
                let i = choose|i: int| 0 <= i < d.len() && #[trigger] t[k] == d[i];
                assert(r[k] == s[i]);
            } else if k == p {
                assert(r[k] == s[s.len() - 1]);
            } else {
                let i = choose|i: int| 0 <= i < d.len() && #[trigger] t[k - 1] == d[i];
                assert(r[k] == s[i]);
            }
        }
        assert forall|i: int, j: int|
            0 <= i < r.len() && 0 <= j < r.len() && i != j implies apart(r[i].2, r[j].2) by {
            let ti = if i < p { i } else { i - 1 };
            let tj = if j < p { j } else { j - 1 };
            if i == p {
                let b = choose|b: int| 0 <= b < d.len() && #[trigger] t[tj] == d[b];
                assert(apart(s[s.len() - 1].2, s[b].2));
            } else if j == p {
                let a = choose|a: int| 0 <= a < d.len() && #[trigger] t[ti] == d[a];
                assert(apart(s[a].2, s[s.len() - 1].2));
            } else {
                assert(ti != tj);
                assert(r[i] == t[ti]);
                assert(r[j] == t[tj]);
            }
        }
    }
}

fn keyed_le_exec<T>(a: &Keyed<T>, b: &Keyed<T>) -> (r: bool)
    ensures
        r == keyed_le(a.kview(), b.kview()),
{
    a.rank > b.rank || (a.rank == b.rank && lex_le_str(a.label.as_str(), b.label.as_str()))
}

/// Sorts by key, keeping records with equal keys in their order.
pub fn sort_keyed<T>(items: Vec<Keyed<T>>) -> (r: Vec<Keyed<T>>)
    ensures
        kviews(r@) == stable_sort(kviews(items@)),
{
    let ghost orig = items@;
    let ghost korig = kviews(items@);
    let mut rest = items;
    let mut r: Vec<Keyed<T>> = Vec::new();
    let n = rest.len();
    let mut i: usize = 0;
    while i < n
        invariant
            n == orig.len(),
            i <= n,
            korig == kviews(orig),
            rest@ == orig.skip(i as int),
            kviews(r@) == stable_sort(korig.take(i as int)),
        decreases n - i,
    {
        let x = rest.remove(0);
        assert(x == orig[i as int]);
        assert(rest@ =~= orig.skip(i + 1));
        let mut p = r.len();
        while p > 0 && !keyed_le_exec(&r[p - 1], &x)
            invariant
                p <= r@.len(),
                forall|j: int| p <= j < r@.len() ==> !keyed_le(#[trigger] kviews(r@)[j], x.kview()),
            decreases p,
        {
            p = p - 1;
        }
        proof {
            lemma_insert_at(kviews(r@), x.kview(), p as int);
            assert(korig.take(i + 1).drop_last() =~= korig.take(i as int));
            assert(korig.take(i + 1).last() == x.kview());
        }
        let ghost before = r@;
        r.insert(p, x);
        assert(kviews(r@) =~= kviews(before).take(p as int).push(x.kview()) + kviews(before).skip(p as int));
        assert(kviews(r@) =~= stable_sort(korig.take(i + 1)));
        i = i + 1;
    }
    assert(korig.take(n as int) =~= korig);
    r
}

/// Moves the records out of a keyed vector, in order.
pub fn unkey<T>(v: Vec<Keyed<T>>) -> (r: Vec<T>)
    ensures
        r@ == items_of(kviews(v@)),
{
    let ghost orig = v@;
    let mut rest = v;
    let mut r: Vec<T> = Vec::new();
    let n = rest.len();
    let mut i: usize = 0;
    while i < n
        invariant
            n == orig.len(),
            i <= n,
            rest@ == orig.skip(i as int),
            r@ == items_of(kviews(orig.take(i as int))),
        decreases n - i,
    {
        let x = rest.remove(0);
        assert(rest@ =~= orig.skip(i + 1));
        r.push(x.item);
        assert(r@ =~= items_of(kviews(orig.take(i + 1))));
        i = i + 1;
    }
    assert(orig.take(n as int) =~= orig);
    r
}

} // verus!
