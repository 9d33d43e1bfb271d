//! A stable insertion sort by key, with the proof that its result is
//! ordered and holds the same items.

use vstd::prelude::*;

verus! {

/// Items that are ordered by a key: `key_le` is a total preorder.
pub trait SortKey: Sized {
    /// The key of `self` is at most the key of `other`.
    spec fn key_le(&self, other: &Self) -> bool;

    fn key_le_exec(&self, other: &Self) -> (r: bool)
        ensures
            r == self.key_le(other),
    ;

    proof fn lemma_key_le_total(a: &Self, b: &Self)
        ensures
            a.key_le(b) || b.key_le(a),
    ;

    proof fn lemma_key_le_transitive(a: &Self, b: &Self, c: &Self)
        requires
            a.key_le(b),
            b.key_le(c),
        ensures
            a.key_le(c),
    ;
}

/// The first position at or after `i` whose item has a key above the key of
/// `x`: where `x` goes so that it follows every item with a key at most its own.
pub open spec fn insertion_point<T: SortKey>(s: Seq<T>, x: T, i: int) -> int
    decreases s.len() - i,
{
    if i < 0 || i >= s.len() {
        s.len() as int
    } else if !s[i].key_le(&x) {
        i
    } else {
        insertion_point(s, x, i + 1)
    }
}

/// `s` sorted by key, items with equal keys keeping their order.
pub open spec fn stable_sorted<T: SortKey>(s: Seq<T>) -> Seq<T>
    decreases s.len(),
{
    if s.len() == 0 {
        s
    } else {
        let r = stable_sorted(s.drop_last());
        r.insert(insertion_point(r, s.last(), 0), s.last())
    }
}

/// Every item's key is at most the key of every later item.
pub open spec fn key_sorted<T: SortKey>(s: Seq<T>) -> bool {
    forall|i: int, j: int| #![trigger s[i], s[j]] 0 <= i < j < s.len() ==> s[i].key_le(&s[j])
}

proof fn lemma_insertion_point<T: SortKey>(s: Seq<T>, x: T, i: int)
    requires
        0 <= i <= s.len(),
    ensures
        i <= insertion_point(s, x, i) <= s.len(),
        forall|k: int| i <= k < insertion_point(s, x, i) ==> (#[trigger] s[k]).key_le(&x),
        insertion_point(s, x, i) < s.len() ==> !s[insertion_point(s, x, i)].key_le(&x),
    decreases s.len() - i,
{
    if i < s.len() && s[i].key_le(&x) {
        lemma_insertion_point(s, x, i + 1);
    }
}

/// The stable sort orders its result by key and keeps exactly its items.
pub proof fn lemma_stable_sorted<T: SortKey>(s: Seq<T>)
    ensures
        key_sorted(stable_sorted(s)),
        stable_sorted(s).len() == s.len(),
        stable_sorted(s).to_multiset() == s.to_multiset(),
    decreases s.len(),
{
    broadcast use vstd::seq_lib::group_to_multiset_ensures;

    if s.len() > 0 {
        let r = stable_sorted(s.drop_last());
        let x = s.last();
        lemma_stable_sorted(s.drop_last());
        lemma_insertion_point(r, x, 0);
        let p = insertion_point(r, x, 0);
        let t = r.insert(p, x);
        assert(t == stable_sorted(s));
        assert forall|i: int, j: int| #![trigger t[i], t[j]] 0 <= i < j < t.len() implies t[i].key_le(
            &t[j],
        ) by {
            if j < p {
                assert(t[i] == r[i] && t[j] == r[j]);
            } else if j == p {
                assert(t[i] == r[i] && t[j] == x);
            } else if i < p {
                assert(t[i] == r[i] && t[j] == r[j - 1]);
                assert(r[i].key_le(&x));
                T::lemma_key_le_total(&x, &r[p]);
                if p < j - 1 {
                    T::lemma_key_le_transitive(&x, &r[p], &r[j - 1]);
                }
                T::lemma_key_le_transitive(&r[i], &x, &r[j - 1]);
            } else if i == p {
                assert(t[i] == x && t[j] == r[j - 1]);
                T::lemma_key_le_total(&x, &r[p]);
                if p < j - 1 {
                    T::lemma_key_le_transitive(&x, &r[p], &r[j - 1]);
                }
            } else {
                assert(t[i] == r[i - 1] && t[j] == r[j - 1]);
            }
        }
        r.insert_ensures(p, x);
        assert(t =~= r.subrange(0, p).push(x) + r.subrange(p, r.len() as int));
        assert(r =~= r.subrange(0, p) + r.subrange(p, r.len() as int));
        assert(s =~= s.drop_last().push(x));
    }
}

/// `a` and `b` have equal keys.
pub open spec fn same_key<T: SortKey>(a: &T, b: &T) -> bool {
    a.key_le(b) && b.key_le(a)
}

/// `r` arranges the items of `s` as `f` says (item `i` of `r` is item `f(i)`
/// of `s`, each item of `s` used once), and items with equal keys keep the
/// order they had in `s`.
pub open spec fn stable_arrangement<T: SortKey>(s: Seq<T>, r: Seq<T>, f: spec_fn(int) -> int) -> bool {
    &&& r.len() == s.len()
    &&& forall|i: int| 0 <= i < r.len() ==> 0 <= #[trigger] f(i) < s.len() && r[i] == s[f(i)]
    &&& forall|i: int, j: int|
        #![trigger f(i), f(j)]
        0 <= i < j < r.len() ==> f(i) != f(j)
    &&& forall|i: int, j: int|
        #![trigger r[i], r[j]]
        0 <= i < j < r.len() && same_key(&r[i], &r[j]) ==> f(i) < f(j)
}

/// The sort is stable: the sorted sequence takes each item of `s` once, and
/// items with equal keys come out in the order they came in. The result `f`
/// tells, for each position of the sorted sequence, the position in `s` of
/// the item found there.
pub proof fn lemma_stable_sorted_keeps_order<T: SortKey>(s: Seq<T>) -> (f: spec_fn(int) -> int)
    ensures
        stable_arrangement(s, stable_sorted(s), f),
    decreases s.len(),
{
    if s.len() == 0 {
        |i: int| i
    } else {
        let n = s.len() as int;
        let s0 = s.drop_last();
        let r = stable_sorted(s0);
        let x = s.last();
        let g = lemma_stable_sorted_keeps_order(s0);
        lemma_stable_sorted(s0);
        lemma_insertion_point(r, x, 0);
        let p = insertion_point(r, x, 0);
        let t = r.insert(p, x);
        assert(t == stable_sorted(s));
        let f = |i: int| if i < p { g(i) } else if i == p { n - 1 } else { g(i - 1) };
        assert forall|i: int| 0 <= i < t.len() implies 0 <= #[trigger] f(i) < s.len() && t[i]
            == s[f(i)] by {
            if i < p {
                assert(t[i] == r[i]);
                assert(0 <= g(i) < s0.len());
            } else if i > p {
                assert(t[i] == r[i - 1]);
                assert(0 <= g(i - 1) < s0.len());
            }
        }
        assert forall|i: int, j: int| #![trigger f(i), f(j)] 0 <= i < j < t.len() implies f(i)
            != f(j) by {
            if i < p {
                assert(0 <= g(i) < s0.len());
                if j > p {
                    assert(g(i) != g(j - 1));
                }
            } else if i == p {
                assert(0 <= g(j - 1) < s0.len());
            } else {
                assert(g(i - 1) != g(j - 1));
            }
        }
        assert forall|i: int, j: int| #![trigger t[i], t[j]]
            0 <= i < j < t.len() && same_key(&t[i], &t[j]) implies f(i) < f(j) by {
            if j < p {
                assert(t[i] == r[i] && t[j] == r[j]);
            } else if j == p {
                assert(0 <= g(i) < s0.len());
            } else if i < p {
                assert(t[i] == r[i] && t[j] == r[j - 1]);
            } else if i == p {
                assert(t[i] == x && t[j] == r[j - 1]);
                assert(r[j - 1].key_le(&x));
                if p < j - 1 {
                    assert(r[p].key_le(&r[j - 1]));
                    T::lemma_key_le_transitive(&r[p], &r[j - 1], &x);
                }
                assert(false);
            } else {
                assert(t[i] == r[i - 1] && t[j] == r[j - 1]);
            }
        }
        f
    }
}

/// Whatever holds of every item holds of every item of the sorted sequence.
pub proof fn lemma_stable_sorted_all<T: SortKey>(s: Seq<T>, p: spec_fn(T) -> bool)
    requires
        forall|i: int| 0 <= i < s.len() ==> p(#[trigger] s[i]),
    ensures
        forall|i: int| 0 <= i < stable_sorted(s).len() ==> p(#[trigger] stable_sorted(s)[i]),
    decreases s.len(),
{
    if s.len() > 0 {
        let r = stable_sorted(s.drop_last());
        let x = s.last();
        assert(p(s[s.len() - 1]));
        lemma_stable_sorted_all(s.drop_last(), p);
        lemma_insertion_point(r, x, 0);
        let q = insertion_point(r, x, 0);
        let t = r.insert(q, x);
        assert forall|i: int| 0 <= i < t.len() implies p(#[trigger] t[i]) by {
            if i < q {
                assert(t[i] == r[i]);
            } else if i > q {
                assert(t[i] == r[i - 1]);
            }
        }
    }
}

/// Sorts `v` stably by key.
pub fn stable_sort<T: SortKey>(v: Vec<T>) -> (r: Vec<T>)
    ensures
        r@ == stable_sorted(v@),
{
    let ghost orig = v@;
    assert(orig.len() == v.len());
    let mut rest = v;
    let mut out: Vec<T> = Vec::new();
    let mut k: usize = 0;
    while rest.len() > 0
        invariant
            k + rest.len() == orig.len(),
            orig.len() <= usize::MAX,
            rest@ == orig.skip(k as int),
            out@ == stable_sorted(orig.take(k as int)),
        decreases rest.len(),
    {
        let x = rest.remove(0);
        assert(x == orig[k as int]);
        assert(orig.take(k + 1).drop_last() =~= orig.take(k as int));
        let mut j: usize = 0;
        while j < out.len() && out[j].key_le_exec(&x)
            invariant
                j <= out.len(),
                insertion_point(out@, x, 0) == insertion_point(out@, x, j as int),
            decreases out.len() - j,
        {
            j += 1;
        }
        out.insert(j, x);
        k += 1;
        assert(rest@ =~= orig.skip(k as int));
    }
    assert(orig.take(k as int) =~= orig);
    out
}

} // verus!
