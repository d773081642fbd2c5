//! Association lists: sequences of key/value pairs in which a key is found
//! by its first occurrence, and binding a key replaces its value in place.
use vstd::prelude::*;

verus! {

/// The first index at or after `t` whose key is `k`.
pub open spec fn key_pos<K, V>(m: Seq<(K, V)>, k: K, t: int) -> Option<int>
    decreases m.len() - t,
{
    if t < 0 || t >= m.len() {
        None
    } else if m[t].0 == k {
        Some(t)
    } else {
        key_pos(m, k, t + 1)
    }
}

pub proof fn lemma_key_pos<K, V>(m: Seq<(K, V)>, k: K, t: int)
    requires
        0 <= t,
    ensures
        key_pos(m, k, t) matches Some(u) ==> t <= u < m.len() && m[u].0 == k,
        key_pos(m, k, t) matches Some(u) ==> forall|w: int| t <= w < u ==> m[w].0 != k,
        key_pos(m, k, t) is None ==> forall|u: int| t <= u < m.len() ==> m[u].0 != k,
    decreases m.len() - t,
{
    if t < m.len() && m[t].0 != k {
        lemma_key_pos(m, k, t + 1);
    }
}

/// The value of the first pair with key `k`.
pub open spec fn assoc_get<K, V>(m: Seq<(K, V)>, k: K) -> Option<V> {
    match key_pos(m, k, 0) {
        Some(t) => Some(m[t].1),
        None => None,
    }
}

/// Binds `k` to `v`: in place where `k` is bound, at the end otherwise.
pub open spec fn assoc_set<K, V>(m: Seq<(K, V)>, k: K, v: V) -> Seq<(K, V)> {
    match key_pos(m, k, 0) {
        Some(t) => m.update(t, (k, v)),
        None => m.push((k, v)),
    }
}

pub open spec fn view_pairs<V>(m: Seq<(String, V)>) -> Seq<(Seq<char>, V)> {
    m.map_values(|p: (String, V)| (p.0@, p.1))
}

/// Finds the first pair whose key is `k`.
pub fn find_key<V>(m: &Vec<(String, V)>, k: &String) -> (r: Option<usize>)
    ensures
        r matches Some(t) ==> key_pos(view_pairs(m@), k@, 0) == Some(t as int),
        r is None ==> key_pos(view_pairs(m@), k@, 0) is None,
{
    let ghost v = view_pairs(m@);
    proof {
        lemma_key_pos(v, k@, 0);
    }
    let mut t: usize = 0;
    while t < m.len()
        invariant
            v == view_pairs(m@),
            v.len() == m@.len(),
            t <= m@.len(),
            forall|u: int| 0 <= u < t ==> v[u].0 != k@,
            key_pos(v, k@, 0) matches Some(u) ==> t <= u < v.len() && v[u].0 == k@,
            key_pos(v, k@, 0) matches Some(u) ==> forall|w: int| 0 <= w < u ==> v[w].0 != k@,
            key_pos(v, k@, 0) is None ==> forall|u: int| 0 <= u < v.len() ==> v[u].0 != k@,
        decreases m@.len() - t,
    {
        assert(v[t as int] == (m@[t as int].0@, m@[t as int].1));
        if m[t].0 == *k {
            assert(v[t as int].0 == k@);
            return Some(t);
        }
        assert(v[t as int].0 != k@);
        t = t + 1;
    }
    None
}

/// Binds `k` to `v`.
pub fn set_key<V>(m: &mut Vec<(String, V)>, k: String, v: V)
    ensures
        view_pairs(final(m)@) == assoc_set(view_pairs(old(m)@), k@, v),
{
    proof {
        lemma_key_pos(view_pairs(m@), k@, 0);
    }
    match find_key(m, &k) {
        Some(t) => {
            let ghost kv = k@;
            m.set(t, (k, v));
            assert(view_pairs(m@) =~= view_pairs(old(m)@).update(t as int, (kv, v)));
        },
        None => {
            let ghost kv = k@;
            m.push((k, v));
            assert(view_pairs(m@) =~= view_pairs(old(m)@).push((kv, v)));
        },
    }
}

/// Whether `k` is bound.
pub fn has_key<V>(m: &Vec<(String, V)>, k: &String) -> (r: bool)
    ensures
        r == key_pos(view_pairs(m@), k@, 0) is Some,
{
    find_key(m, k).is_some()
}

} // verus!
