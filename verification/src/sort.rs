//! Stable ordering: of listings by a two-part key, and stable insertion
//! sorting by any order.

use vstd::prelude::*;

verus! {

/// `(key, position)` pairs in strictly increasing lexicographic order.
pub open spec fn ranked_before(a: (u64, u64), i: usize, b: (u64, u64), j: usize) -> bool {
    a.0 < b.0 || (a.0 == b.0 && (a.1 < b.1 || (a.1 == b.1 && i < j)))
}

/// `perm` lists every position of `keys` once, ordered by key and, among
/// equal keys, by original position: the order a stable sort produces.
pub open spec fn stable_order(keys: Seq<(u64, u64)>, perm: Seq<usize>) -> bool {
    &&& perm.len() == keys.len()
    &&& forall|i: int| 0 <= i < perm.len() ==> #[trigger] perm[i] < keys.len()
    &&& forall|i: int, j: int|
        0 <= i < j < perm.len() ==> ranked_before(
            keys[#[trigger] perm[i] as int],
            perm[i],
            keys[#[trigger] perm[j] as int],
            perm[j],
        )
}

proof fn lemma_ranked_trans(a: (u64, u64), i: usize, b: (u64, u64), j: usize, c: (u64, u64), k: usize)
    requires
        ranked_before(a, i, b, j),
        ranked_before(b, j, c, k),
    ensures
        ranked_before(a, i, c, k),
{
}

/// The stable order of `keys`.
pub fn stable_sort_order(keys: &Vec<(u64, u64)>) -> (r: Vec<usize>)
    ensures
        stable_order(keys@, r@),
{
    let mut r: Vec<usize> = Vec::new();
    let mut j: usize = 0;
    while j < keys.len()
        invariant
            j <= keys.len(),
            r@.len() == j,
            forall|i: int| 0 <= i < r@.len() ==> #[trigger] r@[i] < j,
            forall|a: int, b: int|
                0 <= a < b < r@.len() ==> ranked_before(
                    keys@[#[trigger] r@[a] as int],
                    r@[a],
                    keys@[#[trigger] r@[b] as int],
                    r@[b],
                ),
        decreases keys.len() - j,
    {
        let kj = keys[j];
        let mut k: usize = r.len();
        while k > 0 && (keys[r[k - 1]].0 > kj.0 || (keys[r[k - 1]].0 == kj.0 && keys[r[k - 1]].1
            > kj.1))
            invariant
                k <= r@.len(),
                j < keys@.len(),
                kj == keys@[j as int],
                forall|i: int| 0 <= i < r@.len() ==> #[trigger] r@[i] < j,
                forall|i: int|
                    k <= i < r@.len() ==> ranked_before(kj, j, keys@[#[trigger] r@[i] as int], r@[i]),
            decreases k,
        {
            k = k - 1;
        }
        let ghost old_r = r@;
        r.insert(k, j);
        proof {
            assert forall|a: int, b: int| 0 <= a < b < r@.len() implies ranked_before(
                keys@[#[trigger] r@[a] as int],
                r@[a],
                keys@[#[trigger] r@[b] as int],
                r@[b],
            ) by {
                if b < k {
                    assert(r@[a] == old_r[a] && r@[b] == old_r[b]);
                } else if b == k {
                    assert(r@[a] == old_r[a]);
                    assert(r@[b] == j);
                    if a < k - 1 {
                        lemma_ranked_trans(
                            keys@[old_r[a] as int],
                            old_r[a],
                            keys@[old_r[k - 1] as int],
                            old_r[k - 1],
                            kj,
                            j,
                        );
                    }
                } else if a < k {
                    assert(r@[a] == old_r[a] && r@[b] == old_r[b - 1]);
                } else if a == k {
                    assert(r@[b] == old_r[b - 1]);
                } else {
                    assert(r@[a] == old_r[a - 1] && r@[b] == old_r[b - 1]);
                }
            }
            assert forall|i: int| 0 <= i < r@.len() implies #[trigger] r@[i] < j + 1 by {
                if i < k {
                    assert(r@[i] == old_r[i]);
                } else if i > k {
                    assert(r@[i] == old_r[i - 1]);
                }
            }
        }
        j = j + 1;
    }
    r
}


/// Stable insertion: `x` goes after every element that does not follow it.
pub open spec fn insert_by<A>(s: Seq<A>, x: A, le: spec_fn(A, A) -> bool) -> Seq<A>
    decreases s.len(),
{
    if s.len() == 0 {
        seq![x]
    } else if le(s.last(), x) {
        s.push(x)
    } else {
        insert_by(s.drop_last(), x, le).push(s.last())
    }
}

/// The stable sort of `s` by `le`.
pub open spec fn sort_by<A>(s: Seq<A>, le: spec_fn(A, A) -> bool) -> Seq<A>
    decreases s.len(),
{
    if s.len() == 0 {
        Seq::empty()
    } else {
        insert_by(sort_by(s.drop_last(), le), s.last(), le)
    }
}

/// Inserting at the first position after which every element follows `x`
/// is the stable insertion.
pub proof fn lemma_insert_by_at<A>(s: Seq<A>, x: A, le: spec_fn(A, A) -> bool, j: int)
    requires
        0 <= j <= s.len(),
        forall|k: int| j <= k < s.len() ==> !le(#[trigger] s[k], x),
        j == 0 || le(s[j - 1], x),
    ensures
        insert_by(s, x, le) == s.insert(j, x),
    decreases s.len(),
{
    if s.len() == 0 {
        assert(s.insert(j, x) =~= seq![x]);
    } else if le(s.last(), x) {
        assert(j == s.len());
        assert(s.insert(j, x) =~= s.push(x));
    } else {
        let p = s.drop_last();
        assert forall|k: int| j <= k < p.len() implies !le(#[trigger] p[k], x) by {
            assert(p[k] == s[k]);
        }
        if j > 0 {
            assert(p[j - 1] == s[j - 1]);
        }
        lemma_insert_by_at(p, x, le, j);
        assert(p.insert(j, x).push(s.last()) =~= s.insert(j, x));
    }
}


/// `le` orders every pair one way or the other, transitively.
pub open spec fn total_order<A>(le: spec_fn(A, A) -> bool) -> bool {
    &&& forall|a: A, b: A| #[trigger] le(a, b) || le(b, a)
    &&& forall|a: A, b: A, c: A| #[trigger] le(a, b) && #[trigger] le(b, c) ==> le(a, c)
}

/// `s` ascends under `le`.
pub open spec fn sorted_by<A>(s: Seq<A>, le: spec_fn(A, A) -> bool) -> bool {
    forall|i: int, j: int| 0 <= i < j < s.len() ==> le(#[trigger] s[i], #[trigger] s[j])
}

/// Elements of `s` that order both ways are equal.
pub open spec fn antisymmetric_on<A>(s: Seq<A>, le: spec_fn(A, A) -> bool) -> bool {
    forall|i: int, j: int|
        0 <= i < s.len() && 0 <= j < s.len() && le(#[trigger] s[i], #[trigger] s[j]) && le(s[j], s[i])
            ==> s[i] == s[j]
}

pub proof fn lemma_insert_by_multiset<A>(s: Seq<A>, x: A, le: spec_fn(A, A) -> bool)
    ensures
        insert_by(s, x, le).to_multiset() == s.to_multiset().insert(x),
    decreases s.len(),
{
    broadcast use vstd::seq_lib::group_to_multiset_ensures;

    if s.len() == 0 {
        assert(seq![x] =~= Seq::<A>::empty().push(x));
    } else if le(s.last(), x) {
    } else {
        let d = s.drop_last();
        lemma_insert_by_multiset(d, x, le);
        assert(s =~= d.push(s.last()));
        assert(insert_by(d, x, le).push(s.last()).to_multiset() =~= d.to_multiset().insert(x).insert(s.last()));
        assert(s.to_multiset() =~= d.to_multiset().insert(s.last()));
    }
}

/// Stable sorting permutes: the sort has the elements of its input.
pub proof fn lemma_sort_by_multiset<A>(s: Seq<A>, le: spec_fn(A, A) -> bool)
    ensures
        sort_by(s, le).to_multiset() == s.to_multiset(),
    decreases s.len(),
{
    broadcast use vstd::seq_lib::group_to_multiset_ensures;

    if s.len() == 0 {
        assert(sort_by(s, le) =~= s);
    } else {
        let d = s.drop_last();
        lemma_sort_by_multiset(d, le);
        lemma_insert_by_multiset(sort_by(d, le), s.last(), le);
        assert(s =~= d.push(s.last()));
    }
}

proof fn lemma_insert_by_sorted<A>(s: Seq<A>, x: A, le: spec_fn(A, A) -> bool)
    requires
        total_order(le),
        sorted_by(s, le),
    ensures
        sorted_by(insert_by(s, x, le), le),
        insert_by(s, x, le).len() == s.len() + 1,
        forall|k: int| 0 <= k < insert_by(s, x, le).len() ==> (#[trigger] insert_by(s, x, le)[k] == x || s.contains(insert_by(s, x, le)[k])),
    decreases s.len(),
{
    let r = insert_by(s, x, le);
    if s.len() == 0 {
    } else if le(s.last(), x) {
        assert forall|i: int, j: int| 0 <= i < j < r.len() implies le(#[trigger] r[i], #[trigger] r[j]) by {
            if j == s.len() {
                if i < s.len() - 1 {
                    assert(le(s[i], s[s.len() - 1]));
                }
            }
        }
        assert forall|k: int| 0 <= k < r.len() implies (#[trigger] r[k] == x || s.contains(r[k])) by {
            if k < s.len() {
                assert(r[k] == s[k]);
            }
        }
    } else {
        let d = s.drop_last();
        assert(sorted_by(d, le));
        lemma_insert_by_sorted(d, x, le);
        let q = insert_by(d, x, le);
        assert(le(x, s.last()));
        assert forall|i: int, j: int| 0 <= i < j < r.len() implies le(#[trigger] r[i], #[trigger] r[j]) by {
            if j == r.len() - 1 {
                assert(r[j] == s.last());
                assert(r[i] == q[i]);
                if q[i] != x {
                    assert(d.contains(q[i]));
                    let m = choose|m: int| 0 <= m < d.len() && d[m] == q[i];
                    assert(le(s[m], s[s.len() - 1]));
                }
            } else {
                assert(r[i] == q[i] && r[j] == q[j]);
            }
        }
        assert forall|k: int| 0 <= k < r.len() implies (#[trigger] r[k] == x || s.contains(r[k])) by {
            if k < r.len() - 1 {
                assert(r[k] == q[k]);
                if q[k] != x {
                    let m = choose|m: int| 0 <= m < d.len() && d[m] == q[k];
                    assert(s[m] == q[k]);
                }
            } else {
                assert(s[s.len() - 1] == r[k]);
            }
        }
    }
}

/// Stable sorting sorts.
pub proof fn lemma_sort_by_sorted<A>(s: Seq<A>, le: spec_fn(A, A) -> bool)
    requires
        total_order(le),
    ensures
        sorted_by(sort_by(s, le), le),
    decreases s.len(),
{
    if s.len() > 0 {
        lemma_sort_by_sorted(s.drop_last(), le);
        lemma_insert_by_sorted(sort_by(s.drop_last(), le), s.last(), le);
    }
}

/// Two sorted sequences with the same elements are equal when elements that
/// order both ways are equal.
pub proof fn lemma_sorted_unique<A>(a: Seq<A>, b: Seq<A>, le: spec_fn(A, A) -> bool)
    requires
        total_order(le),
        sorted_by(a, le),
        sorted_by(b, le),
        a.to_multiset() == b.to_multiset(),
        antisymmetric_on(a, le),
    ensures
        a == b,
    decreases a.len(),
{
    broadcast use vstd::seq_lib::group_to_multiset_ensures;
    broadcast use vstd::multiset::group_multiset_axioms;

    assert(a.len() == a.to_multiset().len());
    assert(b.len() == b.to_multiset().len());
    if a.len() == 0 {
        assert(a =~= b);
    } else {
        let (x, y) = (a.last(), b.last());
        assert(b.contains(y));
        assert(a.to_multiset().count(y) > 0);
        assert(a.contains(y));
        assert(a.contains(x));
        assert(b.to_multiset().count(x) > 0);
        assert(b.contains(x));
        let iy = choose|i: int| 0 <= i < a.len() && a[i] == y;
        let ix = choose|i: int| 0 <= i < b.len() && b[i] == x;
        if iy < a.len() - 1 {
            assert(le(a[iy], a[a.len() - 1]));
        } else {
            assert(le(y, y) || le(y, y));
        }
        if ix < b.len() - 1 {
            assert(le(b[ix], b[b.len() - 1]));
        } else {
            assert(le(x, x) || le(x, x));
        }
        assert(le(y, x) && le(x, y));
        assert(a[iy] == y && a[a.len() - 1] == x);
        assert(x == y);
        let (da, db) = (a.drop_last(), b.drop_last());
        assert(a =~= da.push(x));
        assert(b =~= db.push(x));
        assert(da.to_multiset() =~= a.to_multiset().remove(x));
        assert(db.to_multiset() =~= b.to_multiset().remove(x));
        assert(sorted_by(da, le));
        assert(sorted_by(db, le));
        assert forall|i: int, j: int|
            0 <= i < da.len() && 0 <= j < da.len() && le(#[trigger] da[i], #[trigger] da[j]) && le(da[j], da[i])
                implies da[i] == da[j] by {
            assert(da[i] == a[i] && da[j] == a[j]);
        }
        lemma_sorted_unique(da, db, le);
    }
}

/// The stable sort of a sequence depends only on its elements, when
/// elements that order both ways are equal.
pub proof fn lemma_sort_by_permutation<A>(s: Seq<A>, t: Seq<A>, le: spec_fn(A, A) -> bool)
    requires
        total_order(le),
        s.to_multiset() == t.to_multiset(),
        antisymmetric_on(s, le),
    ensures
        sort_by(s, le) == sort_by(t, le),
{
    broadcast use vstd::seq_lib::group_to_multiset_ensures;

    lemma_sort_by_multiset(s, le);
    lemma_sort_by_multiset(t, le);
    lemma_sort_by_sorted(s, le);
    lemma_sort_by_sorted(t, le);
    let a = sort_by(s, le);
    assert forall|i: int, j: int|
        0 <= i < a.len() && 0 <= j < a.len() && le(#[trigger] a[i], #[trigger] a[j]) && le(a[j], a[i])
            implies a[i] == a[j] by {
        assert(a.contains(a[i]) && a.contains(a[j]));
        assert(a.to_multiset().count(a[i]) > 0 && a.to_multiset().count(a[j]) > 0);
        assert(s.contains(a[i]) && s.contains(a[j]));
        let p = choose|p: int| 0 <= p < s.len() && s[p] == a[i];
        let q = choose|q: int| 0 <= q < s.len() && s[q] == a[j];
    }
    lemma_sorted_unique(a, sort_by(t, le), le);
}

} // verus!
