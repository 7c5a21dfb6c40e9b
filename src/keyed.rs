//! Small collections keyed by id: a list of distinct ids standing for a set,
//! and a list of `(id, value)` entries with distinct ids standing for a map.
use vstd::prelude::*;

use crate::text::same_text;

verus! {

/// The ids that `v` holds.
pub open spec fn ids_of(v: Seq<String>) -> Set<Seq<char>> {
    Set::new(|x: Seq<char>| exists|i: int| 0 <= i < v.len() && v[i]@ == x)
}

/// No id occurs twice in `v`.
pub open spec fn distinct_ids(v: Seq<String>) -> bool {
    forall|i: int, j: int| 0 <= i < j < v.len() ==> v[i]@ != v[j]@
}

pub fn has_id(v: &Vec<String>, x: &str) -> (r: bool)
    ensures
        r == ids_of(v@).contains(x@),
{
    let mut i: usize = 0;
    while i < v.len()
        invariant
            i <= v.len(),
            forall|k: int| 0 <= k < i ==> v@[k]@ != x@,
        decreases v.len() - i,
    {
        if same_text(v[i].as_str(), x) {
            return true;
        }
        i = i + 1;
    }
    false
}

/// Adds `x` to the set that `v` stands for.
pub fn add_id(v: &mut Vec<String>, x: String)
    requires
        distinct_ids(old(v)@),
    ensures
        distinct_ids(final(v)@),
        ids_of(final(v)@) == ids_of(old(v)@).insert(x@),
{
    if !has_id(v, x.as_str()) {
        let ghost x_view = x@;
        v.push(x);
        assert(ids_of(v@) =~= ids_of(old(v)@).insert(x_view)) by {
            assert(v@[v@.len() - 1]@ == x_view);
            assert forall|y: Seq<char>| ids_of(old(v)@).contains(y) implies ids_of(v@).contains(y) by {
                let k = choose|k: int| 0 <= k < old(v)@.len() && old(v)@[k]@ == y;
                assert(v@[k] == old(v)@[k]);
            }
        }
    } else {
        assert(ids_of(v@) =~= ids_of(old(v)@).insert(x@));
    }
}

/// Removes `x` from the set that `v` stands for.
pub fn drop_id(v: &mut Vec<String>, x: &str)
    requires
        distinct_ids(old(v)@),
    ensures
        distinct_ids(final(v)@),
        ids_of(final(v)@) == ids_of(old(v)@).remove(x@),
{
    let mut i: usize = 0;
    while i < v.len()
        invariant
            i <= v.len(),
            v@ == old(v)@,
            distinct_ids(v@),
            forall|k: int| 0 <= k < i ==> v@[k]@ != x@,
        decreases v.len() - i,
    {
        if same_text(v[i].as_str(), x) {
            let ghost before = v@;
            v.remove(i);
            assert(ids_of(v@) =~= ids_of(before).remove(x@)) by {
                assert forall|y: Seq<char>| ids_of(v@).contains(y) implies ids_of(before).remove(
                    x@,
                ).contains(y) by {
                    let k = choose|k: int| 0 <= k < v@.len() && v@[k]@ == y;
                    if k < i {
                        assert(v@[k] == before[k]);
                        assert(before[k]@ != before[i as int]@);
                    } else {
                        assert(v@[k] == before[k + 1]);
                        assert(before[k + 1]@ != before[i as int]@);
                    }
                }
                assert forall|y: Seq<char>| ids_of(before).remove(x@).contains(y) implies ids_of(
                    v@,
                ).contains(y) by {
                    let k = choose|k: int| 0 <= k < before.len() && before[k]@ == y;
                    if k < i {
                        assert(v@[k] == before[k]);
                    } else {
                        assert(k != i);
                        assert(v@[k - 1] == before[k]);
                    }
                }
            }
            assert(distinct_ids(v@)) by {
                assert forall|a: int, b: int| 0 <= a < b < v@.len() implies v@[a]@ != v@[b]@ by {
                    let a0 = if a < i { a } else { a + 1 };
                    let b0 = if b < i { b } else { b + 1 };
                    assert(v@[a] == before[a0]);
                    assert(v@[b] == before[b0]);
                    assert(a0 < b0);
                }
            }
            return;
        }
        i = i + 1;
    }
    assert(ids_of(v@) =~= ids_of(old(v)@).remove(x@));
}

/// Whether `a` and `b` stand for the same set of ids.
pub fn same_ids(a: &Vec<String>, b: &Vec<String>) -> (r: bool)
    ensures
        r == (ids_of(a@) == ids_of(b@)),
{
    let mut i: usize = 0;
    while i < a.len()
        invariant
            i <= a.len(),
            forall|k: int| 0 <= k < i ==> ids_of(b@).contains(#[trigger] a@[k]@),
        decreases a.len() - i,
    {
        if !has_id(b, a[i].as_str()) {
            assert(ids_of(a@).contains(a@[i as int]@));
            return false;
        }
        i = i + 1;
    }
    let mut j: usize = 0;
    while j < b.len()
        invariant
            j <= b.len(),
            forall|k: int| 0 <= k < a.len() ==> ids_of(b@).contains(#[trigger] a@[k]@),
            forall|k: int| 0 <= k < j ==> ids_of(a@).contains(#[trigger] b@[k]@),
        decreases b.len() - j,
    {
        if !has_id(a, b[j].as_str()) {
            assert(ids_of(b@).contains(b@[j as int]@));
            return false;
        }
        j = j + 1;
    }
    assert(ids_of(a@) =~= ids_of(b@)) by {
        assert forall|y: Seq<char>| ids_of(a@).contains(y) implies ids_of(b@).contains(y) by {
            let k = choose|k: int| 0 <= k < a@.len() && a@[k]@ == y;
        }
        assert forall|y: Seq<char>| ids_of(b@).contains(y) implies ids_of(a@).contains(y) by {
            let k = choose|k: int| 0 <= k < b@.len() && b@[k]@ == y;
        }
    }
    true
}

/// A copy of a list of ids.
pub fn copy_ids(v: &Vec<String>) -> (r: Vec<String>)
    ensures
        r@ == v@,
{
    let mut r: Vec<String> = Vec::new();
    let mut i: usize = 0;
    while i < v.len()
        invariant
            i <= v.len(),
            r@ == v@.take(i as int),
        decreases v.len() - i,
    {
        r.push(v[i].clone());
        i = i + 1;
        assert(r@ =~= v@.take(i as int));
    }
    assert(v@.take(i as int) =~= v@);
    r
}

/// The ids of a list are none exactly when the list is empty.
pub proof fn lemma_ids_of_empty(v: Seq<String>)
    ensures
        (ids_of(v) == Set::<Seq<char>>::empty()) == (v.len() == 0),
{
    if v.len() > 0 {
        assert(ids_of(v).contains(v[0]@));
    } else {
        assert(ids_of(v) =~= Set::<Seq<char>>::empty());
    }
}

/// The value stored under `k`, if any.
pub open spec fn lookup<V>(e: Seq<(String, V)>, k: Seq<char>) -> Option<V>
    decreases e.len(),
{
    if e.len() == 0 {
        None
    } else if e.last().0@ == k {
        Some(e.last().1)
    } else {
        lookup(e.drop_last(), k)
    }
}

/// No key occurs twice among the entries.
pub open spec fn distinct_keys<V>(e: Seq<(String, V)>) -> bool {
    forall|i: int, j: int| 0 <= i < j < e.len() ==> e[i].0@ != e[j].0@
}

/// Whether no key occurs twice among the entries.
pub fn keys_are_distinct<V>(e: &Vec<(String, V)>) -> (r: bool)
    ensures
        r == distinct_keys(e@),
{
    let mut j: usize = 0;
    while j < e.len()
        invariant
            j <= e.len(),
            forall|a: int, b: int| 0 <= a < b < j ==> e@[a].0@ != e@[b].0@,
        decreases e.len() - j,
    {
        let mut i: usize = 0;
        while i < j
            invariant
                i <= j < e.len(),
                forall|a: int, b: int| 0 <= a < b < j ==> e@[a].0@ != e@[b].0@,
                forall|a: int| 0 <= a < i ==> e@[a].0@ != e@[j as int].0@,
            decreases j - i,
        {
            if same_text(e[i].0.as_str(), e[j].0.as_str()) {
                return false;
            }
            i = i + 1;
        }
        j = j + 1;
    }
    true
}

/// With distinct keys, the value under a key is that of the one entry that
/// holds it.
pub proof fn lemma_lookup<V>(e: Seq<(String, V)>, k: Seq<char>)
    requires
        distinct_keys(e),
    ensures
        (forall|i: int| 0 <= i < e.len() ==> e[i].0@ != k) ==> lookup(e, k) is None,
        forall|i: int| 0 <= i < e.len() && e[i].0@ == k ==> lookup(e, k) == Some(e[i].1),
    decreases e.len(),
{
    if e.len() > 0 {
        let d = e.drop_last();
        lemma_lookup(d, k);
        assert forall|i: int| 0 <= i < e.len() && e[i].0@ == k implies lookup(e, k) == Some(
            e[i].1,
        ) by {
            if i < e.len() - 1 {
                assert(d[i] == e[i]);
            }
        }
        if forall|i: int| 0 <= i < e.len() ==> e[i].0@ != k {
            assert(e[e.len() - 1].0@ != k);
            assert forall|i: int| 0 <= i < d.len() implies d[i].0@ != k by {
                assert(d[i] == e[i]);
            }
        }
    }
}

/// The position of the last entry under `k`, which is the one `lookup`
/// reads; keys need not be distinct.
pub fn find_last_key<V>(e: &Vec<(String, V)>, k: &str) -> (r: Option<usize>)
    ensures
        match r {
            Some(i) => i < e.len() && e@[i as int].0@ == k@ && lookup(e@, k@) == Some(e@[i as int].1),
            None => lookup(e@, k@) is None,
        },
{
    let mut i: usize = e.len();
    assert(e@.take(i as int) =~= e@);
    while i > 0
        invariant
            i <= e.len(),
            lookup(e@, k@) == lookup(e@.take(i as int), k@),
        decreases i,
    {
        let ghost t = e@.take(i as int);
        assert(t.drop_last() =~= e@.take(i - 1));
        assert(t.last() == e@[i - 1]);
        if same_text(e[i - 1].0.as_str(), k) {
            return Some(i - 1);
        }
        i = i - 1;
    }
    None
}

/// The position of the entry under `k`.
pub fn find_key<V>(e: &Vec<(String, V)>, k: &str) -> (r: Option<usize>)
    requires
        distinct_keys(e@),
    ensures
        match r {
            Some(i) => i < e.len() && e@[i as int].0@ == k@ && lookup(e@, k@) == Some(e@[i as int].1),
            None => lookup(e@, k@) is None,
        },
{
    let mut i: usize = 0;
    while i < e.len()
        invariant
            i <= e.len(),
            distinct_keys(e@),
            forall|j: int| 0 <= j < i ==> e@[j].0@ != k@,
        decreases e.len() - i,
    {
        if same_text(e[i].0.as_str(), k) {
            proof {
                lemma_lookup(e@, k@);
            }
            return Some(i);
        }
        i = i + 1;
    }
    proof {
        lemma_lookup(e@, k@);
    }
    None
}

/// Removes the entry under `k`, if there is one.
pub fn remove_key<V>(e: &mut Vec<(String, V)>, k: &str)
    requires
        distinct_keys(old(e)@),
    ensures
        distinct_keys(final(e)@),
        forall|q: Seq<char>| #[trigger]
            lookup(final(e)@, q) == if q == k@ {
                None
            } else {
                lookup(old(e)@, q)
            },
{
    match find_key(e, k) {
        None => {},
        Some(i) => {
            let ghost before = e@;
            e.remove(i);
            assert(distinct_keys(e@)) by {
                assert forall|a: int, b: int| 0 <= a < b < e@.len() implies e@[a].0@ != e@[b].0@ by {
                    let a0 = if a < i { a } else { a + 1 };
                    let b0 = if b < i { b } else { b + 1 };
                    assert(e@[a] == before[a0]);
                    assert(e@[b] == before[b0]);
                }
            }
            assert forall|q: Seq<char>| #[trigger]
                lookup(e@, q) == if q == k@ {
                    None
                } else {
                    lookup(before, q)
                } by {
                lemma_lookup(before, q);
                lemma_lookup(e@, q);
                if q == k@ {
                    assert forall|j: int| 0 <= j < e@.len() implies e@[j].0@ != q by {
                        if j < i {
                            assert(e@[j] == before[j]);
                        } else {
                            assert(e@[j] == before[j + 1]);
                        }
                    }
                } else {
                    if exists|j: int| 0 <= j < before.len() && before[j].0@ == q {
                        let j = choose|j: int| 0 <= j < before.len() && before[j].0@ == q;
                        if j < i {
                            assert(e@[j] == before[j]);
                        } else {
                            assert(j != i);
                            assert(e@[j - 1] == before[j]);
                        }
                    } else {
                        assert forall|j: int| 0 <= j < e@.len() implies e@[j].0@ != q by {
                            if j < i {
                                assert(e@[j] == before[j]);
                            } else {
                                assert(e@[j] == before[j + 1]);
                            }
                        }
                    }
                }
            }
        },
    }
}

/// Stores `v` under `k`, replacing what was there.
pub fn put_key<V>(e: &mut Vec<(String, V)>, k: String, v: V)
    requires
        distinct_keys(old(e)@),
    ensures
        distinct_keys(final(e)@),
        forall|q: Seq<char>| #[trigger]
            lookup(final(e)@, q) == if q == k@ {
                Some(v)
            } else {
                lookup(old(e)@, q)
            },
{
    let ghost before = e@;
    let ghost kv = k@;
    match find_key(e, k.as_str()) {
        None => {
            e.push((k, v));
            assert(e@.drop_last() =~= before);
            assert forall|q: Seq<char>| #[trigger]
                lookup(e@, q) == if q == kv {
                    Some(v)
                } else {
                    lookup(before, q)
                } by {}
            assert(distinct_keys(e@)) by {
                lemma_lookup(before, kv);
                assert forall|a: int, b: int| 0 <= a < b < e@.len() implies e@[a].0@ != e@[b].0@ by {
                    if b == e@.len() - 1 {
                        assert(e@[a] == before[a]);
                    } else {
                        assert(e@[a] == before[a]);
                        assert(e@[b] == before[b]);
                    }
                }
            }
        },
        Some(i) => {
            e.set(i, (k, v));
            assert(distinct_keys(e@)) by {
                assert forall|a: int, b: int| 0 <= a < b < e@.len() implies e@[a].0@ != e@[b].0@ by {
                    assert(e@[a].0@ == before[a].0@);
                    assert(e@[b].0@ == before[b].0@);
                }
            }
            assert forall|q: Seq<char>| #[trigger]
                lookup(e@, q) == if q == kv {
                    Some(v)
                } else {
                    lookup(before, q)
                } by {
                lemma_lookup(before, q);
                lemma_lookup(e@, q);
                if q != kv {
                    if exists|j: int| 0 <= j < before.len() && before[j].0@ == q {
                        let j = choose|j: int| 0 <= j < before.len() && before[j].0@ == q;
                        assert(e@[j] == before[j]);
                    } else {
                        assert forall|j: int| 0 <= j < e@.len() implies e@[j].0@ != q by {
                            if j != i {
                                assert(e@[j] == before[j]);
                            }
                        }
                    }
                } else {
                    assert(e@[i as int].0@ == kv);
                }
            }
        },
    }
}

} // verus!
