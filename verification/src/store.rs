//! Entities keyed by id, held in vectors sorted by strictly increasing key and
//! viewed as maps from key to entity view.

use vstd::prelude::*;

verus! {

/// An entity with a `u64` key.
pub trait KeyOf: View + Sized {
    spec fn key_of(v: Self::V) -> u64;

    fn exec_key(&self) -> (r: u64)
        ensures
            r == Self::key_of(self@),
    ;
}

pub open spec fn vseq<T: View>(v: Seq<T>) -> Seq<T::V> {
    v.map_values(|x: T| x@)
}

pub open spec fn keys_increasing<T: KeyOf>(s: Seq<T::V>) -> bool {
    forall|i: int, j: int| 0 <= i < j < s.len() ==> T::key_of(#[trigger] s[i]) < T::key_of(#[trigger] s[j])
}

/// The map from key to element of a listing.
pub open spec fn to_map<T: KeyOf>(s: Seq<T::V>) -> Map<u64, T::V>
    decreases s.len(),
{
    if s.len() == 0 {
        Map::empty()
    } else {
        to_map::<T>(s.drop_last()).insert(T::key_of(s.last()), s.last())
    }
}

pub proof fn lemma_to_map_dom<T: KeyOf>(s: Seq<T::V>, k: u64)
    ensures
        to_map::<T>(s).contains_key(k) <==> exists|i: int| 0 <= i < s.len() && T::key_of(#[trigger] s[i]) == k,
    decreases s.len(),
{
    if s.len() > 0 {
        lemma_to_map_dom::<T>(s.drop_last(), k);
        if to_map::<T>(s).contains_key(k) {
            if T::key_of(s.last()) != k {
                let i = choose|i: int| 0 <= i < s.drop_last().len() && T::key_of(#[trigger] s.drop_last()[i]) == k;
                assert(s[i] == s.drop_last()[i]);
            } else {
                assert(T::key_of(s[s.len() - 1]) == k);
            }
        }
        if exists|i: int| 0 <= i < s.len() && T::key_of(#[trigger] s[i]) == k {
            let i = choose|i: int| 0 <= i < s.len() && T::key_of(#[trigger] s[i]) == k;
            if i < s.len() - 1 {
                assert(s.drop_last()[i] == s[i]);
            }
        }
    }
}

pub proof fn lemma_to_map_index<T: KeyOf>(s: Seq<T::V>, i: int)
    requires
        keys_increasing::<T>(s),
        0 <= i < s.len(),
    ensures
        to_map::<T>(s).contains_key(T::key_of(s[i])),
        to_map::<T>(s)[T::key_of(s[i])] == s[i],
    decreases s.len(),
{
    if i < s.len() - 1 {
        let p = s.drop_last();
        assert(keys_increasing::<T>(p)) by {
            assert forall|a: int, b: int| 0 <= a < b < p.len() implies T::key_of(#[trigger] p[a]) < T::key_of(#[trigger] p[b]) by {
                assert(p[a] == s[a] && p[b] == s[b]);
            }
        }
        assert(p[i] == s[i]);
        lemma_to_map_index::<T>(p, i);
        assert(T::key_of(s[i]) < T::key_of(s[s.len() - 1]));
    }
}

/// Inserting an element whose key is new at its sorted position extends the
/// map by that key.
pub proof fn lemma_to_map_insert<T: KeyOf>(s: Seq<T::V>, p: int, x: T::V)
    requires
        keys_increasing::<T>(s),
        keys_increasing::<T>(s.insert(p, x)),
        0 <= p <= s.len(),
    ensures
        to_map::<T>(s.insert(p, x)) =~= to_map::<T>(s).insert(T::key_of(x), x),
{
    let t = s.insert(p, x);
    assert forall|k: u64| #[trigger] to_map::<T>(t).contains_key(k) <==> to_map::<T>(s).insert(T::key_of(x), x).contains_key(k) by {
        lemma_to_map_dom::<T>(t, k);
        lemma_to_map_dom::<T>(s, k);
        if exists|i: int| 0 <= i < t.len() && T::key_of(#[trigger] t[i]) == k {
            let i = choose|i: int| 0 <= i < t.len() && T::key_of(#[trigger] t[i]) == k;
            if i < p {
                assert(t[i] == s[i]);
            } else if i > p {
                assert(t[i] == s[i - 1]);
            }
        }
        if exists|i: int| 0 <= i < s.len() && T::key_of(#[trigger] s[i]) == k {
            let i = choose|i: int| 0 <= i < s.len() && T::key_of(#[trigger] s[i]) == k;
            if i < p {
                assert(t[i] == s[i]);
            } else {
                assert(t[i + 1] == s[i]);
            }
        }
        if k == T::key_of(x) {
            assert(t[p] == x);
        }
    }
    assert forall|k: u64| #[trigger] to_map::<T>(t).contains_key(k) implies to_map::<T>(t)[k] == to_map::<T>(s).insert(T::key_of(x), x)[k] by {
        lemma_to_map_dom::<T>(t, k);
        let i = choose|i: int| 0 <= i < t.len() && T::key_of(#[trigger] t[i]) == k;
        lemma_to_map_index::<T>(t, i);
        if i < p {
            assert(t[i] == s[i]);
            lemma_to_map_index::<T>(s, i);
            assert(T::key_of(s[i]) < T::key_of(t[p]));
        } else if i > p {
            assert(t[i] == s[i - 1]);
            lemma_to_map_index::<T>(s, i - 1);
            assert(T::key_of(t[p]) < T::key_of(t[i]));
        }
    }
}

/// Replacing an element by one with the same key updates the map at that key.
pub proof fn lemma_to_map_update<T: KeyOf>(s: Seq<T::V>, i: int, x: T::V)
    requires
        keys_increasing::<T>(s),
        0 <= i < s.len(),
        T::key_of(x) == T::key_of(s[i]),
    ensures
        keys_increasing::<T>(s.update(i, x)),
        to_map::<T>(s.update(i, x)) =~= to_map::<T>(s).insert(T::key_of(x), x),
{
    let t = s.update(i, x);
    assert(keys_increasing::<T>(t)) by {
        assert forall|a: int, b: int| 0 <= a < b < t.len() implies T::key_of(#[trigger] t[a]) < T::key_of(#[trigger] t[b]) by {
            assert(T::key_of(t[a]) == T::key_of(s[a]));
            assert(T::key_of(t[b]) == T::key_of(s[b]));
        }
    }
    assert forall|k: u64| #[trigger] to_map::<T>(t).contains_key(k) <==> to_map::<T>(s).insert(T::key_of(x), x).contains_key(k) by {
        lemma_to_map_dom::<T>(t, k);
        lemma_to_map_dom::<T>(s, k);
        if exists|j: int| 0 <= j < t.len() && T::key_of(#[trigger] t[j]) == k {
            let j = choose|j: int| 0 <= j < t.len() && T::key_of(#[trigger] t[j]) == k;
            assert(T::key_of(s[j]) == T::key_of(t[j]));
        }
        if exists|j: int| 0 <= j < s.len() && T::key_of(#[trigger] s[j]) == k {
            let j = choose|j: int| 0 <= j < s.len() && T::key_of(#[trigger] s[j]) == k;
            assert(T::key_of(t[j]) == T::key_of(s[j]));
        }
        if k == T::key_of(x) {
            assert(T::key_of(t[i]) == k);
        }
    }
    assert forall|k: u64| #[trigger] to_map::<T>(t).contains_key(k) implies to_map::<T>(t)[k] == to_map::<T>(s).insert(T::key_of(x), x)[k] by {
        lemma_to_map_dom::<T>(t, k);
        let j = choose|j: int| 0 <= j < t.len() && T::key_of(#[trigger] t[j]) == k;
        lemma_to_map_index::<T>(t, j);
        if j != i {
            lemma_to_map_index::<T>(s, j);
            assert(t[j] == s[j]);
        }
    }
}

/// The index of the element with key `k`, if any.
pub fn find_index<T: KeyOf>(v: &Vec<T>, k: u64) -> (r: Option<usize>)
    requires
        keys_increasing::<T>(vseq(v@)),
    ensures
        match r {
            Some(i) => i < v@.len() && T::key_of(v@[i as int]@) == k && to_map::<T>(vseq(v@)).contains_key(k)
                && to_map::<T>(vseq(v@))[k] == v@[i as int]@,
            None => !to_map::<T>(vseq(v@)).contains_key(k),
        },
{
    let mut i: usize = 0;
    while i < v.len()
        invariant
            i <= v.len(),
            keys_increasing::<T>(vseq(v@)),
            forall|j: int| 0 <= j < i ==> T::key_of(#[trigger] v@[j]@) != k,
        decreases v.len() - i,
    {
        if v[i].exec_key() == k {
            proof {
                assert(vseq(v@)[i as int] == v@[i as int]@);
                lemma_to_map_index::<T>(vseq(v@), i as int);
            }
            return Some(i);
        }
        i = i + 1;
    }
    proof {
        lemma_to_map_dom::<T>(vseq(v@), k);
        if to_map::<T>(vseq(v@)).contains_key(k) {
            let j = choose|j: int| 0 <= j < vseq(v@).len() && T::key_of(#[trigger] vseq(v@)[j]) == k;
            assert(vseq(v@)[j] == v@[j]@);
        }
    }
    None
}

/// Insert an element whose key is not yet present, keeping keys sorted.
pub fn insert_sorted<T: KeyOf>(v: &mut Vec<T>, x: T)
    requires
        keys_increasing::<T>(vseq(old(v)@)),
        !to_map::<T>(vseq(old(v)@)).contains_key(T::key_of(x@)),
    ensures
        keys_increasing::<T>(vseq(final(v)@)),
        to_map::<T>(vseq(final(v)@)) == to_map::<T>(vseq(old(v)@)).insert(T::key_of(x@), x@),
        final(v)@.len() == old(v)@.len() + 1,
{
    let k = x.exec_key();
    let ghost s = vseq(v@);
    let mut p: usize = v.len();
    while p > 0 && v[p - 1].exec_key() > k
        invariant
            p <= v.len(),
            v@ == old(v)@,
            forall|j: int| p <= j < v.len() ==> T::key_of(#[trigger] v@[j]@) > k,
        decreases p,
    {
        p = p - 1;
    }
    let ghost xv = x@;
    proof {
        lemma_to_map_dom::<T>(s, k);
        if p > 0 {
            assert(s[p - 1] == v@[p - 1]@);
            if T::key_of(s[p - 1]) == k {
                assert(to_map::<T>(s).contains_key(k));
            }
        }
    }
    v.insert(p, x);
    proof {
        let t = vseq(v@);
        assert(t =~= s.insert(p as int, xv));
        assert(keys_increasing::<T>(t)) by {
            assert forall|a: int, b: int| 0 <= a < b < t.len() implies T::key_of(#[trigger] t[a]) < T::key_of(#[trigger] t[b]) by {
                if b < p {
                    assert(t[a] == s[a] && t[b] == s[b]);
                } else if b == p {
                    assert(t[a] == s[a]);
                    if a < p - 1 {
                        assert(T::key_of(s[a]) < T::key_of(s[p - 1]));
                    }
                    assert(T::key_of(s[p - 1]) != k);
                } else if a < p {
                    assert(t[a] == s[a] && t[b] == s[b - 1]);
                } else if a == p {
                    assert(t[b] == s[b - 1]);
                    assert(s[b - 1] == old(v)@[b - 1]@);
                } else {
                    assert(t[a] == s[a - 1] && t[b] == s[b - 1]);
                }
            }
        }
        lemma_to_map_insert::<T>(s, p as int, xv);
    }
}

/// Replace the element at `i` by one with the same key.
pub fn replace_at<T: KeyOf>(v: &mut Vec<T>, i: usize, x: T)
    requires
        keys_increasing::<T>(vseq(old(v)@)),
        i < old(v)@.len(),
        T::key_of(x@) == T::key_of(old(v)@[i as int]@),
    ensures
        keys_increasing::<T>(vseq(final(v)@)),
        to_map::<T>(vseq(final(v)@)) == to_map::<T>(vseq(old(v)@)).insert(T::key_of(x@), x@),
        vseq(final(v)@) == vseq(old(v)@).update(i as int, x@),
        final(v)@.len() == old(v)@.len(),
{
    let ghost s = vseq(v@);
    let ghost xv = x@;
    v.set(i, x);
    proof {
        assert(vseq(v@) =~= s.update(i as int, xv));
        lemma_to_map_update::<T>(s, i as int, xv);
    }
}

/// The first element with key `k`, scanning from the front.
pub open spec fn find_first<T: KeyOf>(s: Seq<T::V>, k: u64) -> Option<T::V>
    decreases s.len(),
{
    if s.len() == 0 {
        None
    } else if T::key_of(s[0]) == k {
        Some(s[0])
    } else {
        find_first::<T>(s.drop_first(), k)
    }
}

/// The position of the first element with key `k`.
pub fn find_first_index<T: KeyOf>(v: &Vec<T>, k: u64) -> (r: Option<usize>)
    ensures
        match r {
            Some(i) => i < v@.len() && find_first::<T>(vseq(v@), k) == Some(v@[i as int]@),
            None => find_first::<T>(vseq(v@), k) is None,
        },
{
    let mut i: usize = 0;
    assert(vseq(v@).skip(0) =~= vseq(v@));
    while i < v.len()
        invariant
            i <= v.len(),
            find_first::<T>(vseq(v@), k) == find_first::<T>(vseq(v@).skip(i as int), k),
        decreases v.len() - i,
    {
        proof {
            assert(vseq(v@).skip(i as int)[0] == v@[i as int]@);
            assert(vseq(v@).skip(i as int).drop_first() =~= vseq(v@).skip(i + 1));
        }
        if v[i].exec_key() == k {
            return Some(i);
        }
        i = i + 1;
    }
    None
}

} // verus!
