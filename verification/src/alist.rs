//! Association lists with unique keys, and their abstraction to `Map`.
//!
//! The contract state keeps each entity kind in a vector of key/value
//! pairs. These spec functions read such a vector as a finite map, and the
//! lemmas here say how pushing a fresh pair or updating an existing one
//! changes that map. Two key kinds occur: strings (team names, prediction
//! ids), read through their character sequences, and plain `u64`
//! identities.

use vstd::prelude::*;

verus! {

// ---------------------------------------------------------------------
// String-keyed lists
// ---------------------------------------------------------------------
/// No two entries share a key.
pub open spec fn skeys_unique<V>(s: Seq<(String, V)>) -> bool {
    forall|i: int, j: int| 0 <= i < j < s.len() ==> (#[trigger] s[i]).0@ != (#[trigger] s[j]).0@
}

/// Some entry carries the key `k`.
pub open spec fn shas<V>(s: Seq<(String, V)>, k: Seq<char>) -> bool {
    exists|i: int| 0 <= i < s.len() && (#[trigger] s[i]).0@ == k
}

/// The index of the entry carrying `k`.
pub open spec fn sidx<V>(s: Seq<(String, V)>, k: Seq<char>) -> int {
    choose|i: int| 0 <= i < s.len() && (#[trigger] s[i]).0@ == k
}

/// The value stored under `k`.
pub open spec fn sget<V>(s: Seq<(String, V)>, k: Seq<char>) -> V {
    s[sidx(s, k)].1
}

/// The list read as a map, each value through `f`.
pub open spec fn smodel<V, W>(s: Seq<(String, V)>, f: spec_fn(V) -> W) -> Map<Seq<char>, W> {
    Map::new(|k: Seq<char>| shas(s, k), |k: Seq<char>| f(sget(s, k)))
}

/// With unique keys, the entry at `i` is the one its key finds.
pub proof fn lemma_sidx_at<V>(s: Seq<(String, V)>, i: int)
    requires
        skeys_unique(s),
        0 <= i < s.len(),
    ensures
        shas(s, s[i].0@),
        sidx(s, s[i].0@) == i,
        sget(s, s[i].0@) == s[i].1,
{
    assert(shas(s, s[i].0@));
    let j = sidx(s, s[i].0@);
    assert(0 <= j < s.len() && s[j].0@ == s[i].0@);
    if i < j {
        assert(s[i].0@ != s[j].0@);
    } else if j < i {
        assert(s[j].0@ != s[i].0@);
    }
}

/// The entry at `i`, read through `smodel`.
pub proof fn lemma_smodel_at<V, W>(s: Seq<(String, V)>, i: int, f: spec_fn(V) -> W)
    requires
        skeys_unique(s),
        0 <= i < s.len(),
    ensures
        smodel(s, f).contains_key(s[i].0@),
        smodel(s, f)[s[i].0@] == f(s[i].1),
{
    lemma_sidx_at(s, i);
}

/// Pushing a pair under a fresh key inserts it into the map.
pub proof fn lemma_push_smodel<V, W>(s: Seq<(String, V)>, key: String, v: V, f: spec_fn(V) -> W)
    requires
        skeys_unique(s),
        !shas(s, key@),
    ensures
        skeys_unique(s.push((key, v))),
        smodel(s.push((key, v)), f) == smodel(s, f).insert(key@, f(v)),
{
    let s2 = s.push((key, v));
    assert forall|i: int, j: int| 0 <= i < j < s2.len() implies (#[trigger] s2[i]).0@ != (
    #[trigger] s2[j]).0@ by {
        if j < s.len() {
            assert(s[i].0@ != s[j].0@);
        } else {
            if s[i].0@ == key@ {
                assert(shas(s, key@));
            }
        }
    }
    assert forall|k: Seq<char>| #[trigger] shas(s2, k) implies shas(s, k) || k == key@ by {
        let i = choose|i: int| 0 <= i < s2.len() && (#[trigger] s2[i]).0@ == k;
        if i < s.len() {
            assert(s[i].0@ == k);
        }
    }
    assert forall|k: Seq<char>| shas(s, k) implies #[trigger] shas(s2, k) by {
        let i = choose|i: int| 0 <= i < s.len() && (#[trigger] s[i]).0@ == k;
        assert(s2[i].0@ == k);
    }
    assert(s2[s.len() as int].0@ == key@);
    assert(shas(s2, key@));
    assert forall|k: Seq<char>| #[trigger] shas(s2, k) implies sget(s2, k) == (if k == key@ {
        v
    } else {
        sget(s, k)
    }) by {
        let i = sidx(s2, k);
        assert(0 <= i < s2.len() && s2[i].0@ == k);
        if k == key@ {
            if i < s.len() {
                assert(shas(s, key@));
            }
            assert(s2[i].1 == v);
        } else {
            assert(i < s.len());
            assert(s[i].0@ == k);
            lemma_sidx_at(s, i);
            assert(sget(s2, k) == s2[i].1);
        }
    }
    assert(smodel(s2, f) =~= smodel(s, f).insert(key@, f(v)));
}

/// Updating the entry at `i` with a pair carrying the same key reinserts
/// that key into the map.
pub proof fn lemma_update_smodel<V, W>(
    s: Seq<(String, V)>,
    i: int,
    p: (String, V),
    f: spec_fn(V) -> W,
)
    requires
        skeys_unique(s),
        0 <= i < s.len(),
        p.0@ == s[i].0@,
    ensures
        skeys_unique(s.update(i, p)),
        smodel(s.update(i, p), f) == smodel(s, f).insert(p.0@, f(p.1)),
{
    let s2 = s.update(i, p);
    assert forall|a: int, b: int| 0 <= a < b < s2.len() implies (#[trigger] s2[a]).0@ != (
    #[trigger] s2[b]).0@ by {
        assert(s[a].0@ != s[b].0@);
    }
    assert forall|k: Seq<char>| #[trigger] shas(s2, k) implies shas(s, k) by {
        let a = choose|a: int| 0 <= a < s2.len() && (#[trigger] s2[a]).0@ == k;
        assert(s[a].0@ == k);
    }
    assert forall|k: Seq<char>| #[trigger] shas(s, k) implies shas(s2, k) by {
        let a = choose|a: int| 0 <= a < s.len() && (#[trigger] s[a]).0@ == k;
        assert(s2[a].0@ == k);
    }
    assert forall|k: Seq<char>| #[trigger] shas(s2, k) implies sget(s2, k) == (if k == p.0@ {
        p.1
    } else {
        sget(s, k)
    }) by {
        let a = sidx(s2, k);
        assert(0 <= a < s2.len() && s2[a].0@ == k);
        if k == p.0@ {
            if a != i {
                assert(s[a].0@ == s[i].0@);
                if a < i {
                    assert(s[a].0@ != s[i].0@);
                } else {
                    assert(s[i].0@ != s[a].0@);
                }
            }
            assert(s2[a].1 == p.1);
        } else {
            assert(a != i);
            assert(s[a].0@ == k);
            lemma_sidx_at(s, a);
        }
    }
    assert(shas(s2, p.0@)) by {
        assert(s2[i].0@ == p.0@);
    }
    assert(smodel(s2, f) =~= smodel(s, f).insert(p.0@, f(p.1)));
}

/// Two lists equal key by key and, under `f`, value by value read as the
/// same map.
pub proof fn lemma_smodel_pairwise<V, W>(a: Seq<(String, V)>, b: Seq<(String, V)>, f: spec_fn(V) -> W)
    requires
        skeys_unique(a),
        a.len() == b.len(),
        forall|i: int| 0 <= i < a.len() ==> (#[trigger] b[i]).0@ == a[i].0@ && f(b[i].1) == f(
            a[i].1,
        ),
    ensures
        skeys_unique(b),
        smodel(b, f) == smodel(a, f),
{
    assert forall|i: int, j: int| 0 <= i < j < b.len() implies (#[trigger] b[i]).0@ != (
    #[trigger] b[j]).0@ by {
        assert(a[i].0@ != a[j].0@);
    }
    assert forall|k: Seq<char>| #[trigger] shas(b, k) implies shas(a, k) by {
        let i = choose|i: int| 0 <= i < b.len() && (#[trigger] b[i]).0@ == k;
        assert(a[i].0@ == k);
    }
    assert forall|k: Seq<char>| #[trigger] shas(a, k) implies shas(b, k) by {
        let i = choose|i: int| 0 <= i < a.len() && (#[trigger] a[i]).0@ == k;
        assert(b[i].0@ == k);
    }
    assert forall|k: Seq<char>| #[trigger] shas(a, k) implies f(sget(b, k)) == f(sget(a, k)) by {
        let i = sidx(a, k);
        assert(0 <= i < a.len() && a[i].0@ == k);
        lemma_sidx_at(a, i);
        assert(b[i].0@ == k);
        lemma_sidx_at(b, i);
    }
    assert(smodel(b, f) =~= smodel(a, f));
}

// ---------------------------------------------------------------------
// u64-keyed lists
// ---------------------------------------------------------------------
/// No two entries share a key.
pub open spec fn ukeys_unique<V>(s: Seq<(u64, V)>) -> bool {
    forall|i: int, j: int| 0 <= i < j < s.len() ==> (#[trigger] s[i]).0 != (#[trigger] s[j]).0
}

/// Some entry carries the key `k`.
pub open spec fn uhas<V>(s: Seq<(u64, V)>, k: u64) -> bool {
    exists|i: int| 0 <= i < s.len() && (#[trigger] s[i]).0 == k
}

/// The index of the entry carrying `k`.
pub open spec fn uidx<V>(s: Seq<(u64, V)>, k: u64) -> int {
    choose|i: int| 0 <= i < s.len() && (#[trigger] s[i]).0 == k
}

/// The value stored under `k`.
pub open spec fn uget<V>(s: Seq<(u64, V)>, k: u64) -> V {
    s[uidx(s, k)].1
}

/// The list read as a map, each value through `f`.
pub open spec fn umodel<V, W>(s: Seq<(u64, V)>, f: spec_fn(V) -> W) -> Map<u64, W> {
    Map::new(|k: u64| uhas(s, k), |k: u64| f(uget(s, k)))
}

/// With unique keys, the entry at `i` is the one its key finds.
pub proof fn lemma_uidx_at<V>(s: Seq<(u64, V)>, i: int)
    requires
        ukeys_unique(s),
        0 <= i < s.len(),
    ensures
        uhas(s, s[i].0),
        uidx(s, s[i].0) == i,
        uget(s, s[i].0) == s[i].1,
{
    assert(uhas(s, s[i].0));
    let j = uidx(s, s[i].0);
    assert(0 <= j < s.len() && s[j].0 == s[i].0);
    if i < j {
        assert(s[i].0 != s[j].0);
    } else if j < i {
        assert(s[j].0 != s[i].0);
    }
}

/// The entry at `i`, read through `umodel`.
pub proof fn lemma_umodel_at<V, W>(s: Seq<(u64, V)>, i: int, f: spec_fn(V) -> W)
    requires
        ukeys_unique(s),
        0 <= i < s.len(),
    ensures
        umodel(s, f).contains_key(s[i].0),
        umodel(s, f)[s[i].0] == f(s[i].1),
{
    lemma_uidx_at(s, i);
}

/// Pushing a pair under a fresh key inserts it into the map.
pub proof fn lemma_push_umodel<V, W>(s: Seq<(u64, V)>, key: u64, v: V, f: spec_fn(V) -> W)
    requires
        ukeys_unique(s),
        !uhas(s, key),
    ensures
        ukeys_unique(s.push((key, v))),
        umodel(s.push((key, v)), f) == umodel(s, f).insert(key, f(v)),
{
    let s2 = s.push((key, v));
    assert forall|i: int, j: int| 0 <= i < j < s2.len() implies (#[trigger] s2[i]).0 != (
    #[trigger] s2[j]).0 by {
        if j < s.len() {
            assert(s[i].0 != s[j].0);
        } else {
            if s[i].0 == key {
                assert(uhas(s, key));
            }
        }
    }
    assert forall|k: u64| #[trigger] uhas(s2, k) implies uhas(s, k) || k == key by {
        let i = choose|i: int| 0 <= i < s2.len() && (#[trigger] s2[i]).0 == k;
        if i < s.len() {
            assert(s[i].0 == k);
        }
    }
    assert forall|k: u64| uhas(s, k) implies #[trigger] uhas(s2, k) by {
        let i = choose|i: int| 0 <= i < s.len() && (#[trigger] s[i]).0 == k;
        assert(s2[i].0 == k);
    }
    assert(s2[s.len() as int].0 == key);
    assert(uhas(s2, key));
    assert forall|k: u64| #[trigger] uhas(s2, k) implies uget(s2, k) == (if k == key {
        v
    } else {
        uget(s, k)
    }) by {
        let i = uidx(s2, k);
        assert(0 <= i < s2.len() && s2[i].0 == k);
        if k == key {
            if i < s.len() {
                assert(uhas(s, key));
            }
            assert(s2[i].1 == v);
        } else {
            assert(i < s.len());
            assert(s[i].0 == k);
            lemma_uidx_at(s, i);
        }
    }
    assert(umodel(s2, f) =~= umodel(s, f).insert(key, f(v)));
}

/// Updating the entry at `i` with a pair carrying the same key reinserts
/// that key into the map.
pub proof fn lemma_update_umodel<V, W>(s: Seq<(u64, V)>, i: int, p: (u64, V), f: spec_fn(V) -> W)
    requires
        ukeys_unique(s),
        0 <= i < s.len(),
        p.0 == s[i].0,
    ensures
        ukeys_unique(s.update(i, p)),
        umodel(s.update(i, p), f) == umodel(s, f).insert(p.0, f(p.1)),
{
    let s2 = s.update(i, p);
    assert forall|a: int, b: int| 0 <= a < b < s2.len() implies (#[trigger] s2[a]).0 != (
    #[trigger] s2[b]).0 by {
        assert(s[a].0 != s[b].0);
    }
    assert forall|k: u64| #[trigger] uhas(s2, k) implies uhas(s, k) by {
        let a = choose|a: int| 0 <= a < s2.len() && (#[trigger] s2[a]).0 == k;
        assert(s[a].0 == k);
    }
    assert forall|k: u64| #[trigger] uhas(s, k) implies uhas(s2, k) by {
        let a = choose|a: int| 0 <= a < s.len() && (#[trigger] s[a]).0 == k;
        assert(s2[a].0 == k);
    }
    assert forall|k: u64| #[trigger] uhas(s2, k) implies uget(s2, k) == (if k == p.0 {
        p.1
    } else {
        uget(s, k)
    }) by {
        let a = uidx(s2, k);
        assert(0 <= a < s2.len() && s2[a].0 == k);
        if k == p.0 {
            if a != i {
                if a < i {
                    assert(s[a].0 != s[i].0);
                } else {
                    assert(s[i].0 != s[a].0);
                }
            }
            assert(s2[a].1 == p.1);
        } else {
            assert(a != i);
            assert(s[a].0 == k);
            lemma_uidx_at(s, a);
        }
    }
    assert(uhas(s2, p.0)) by {
        assert(s2[i].0 == p.0);
    }
    assert(umodel(s2, f) =~= umodel(s, f).insert(p.0, f(p.1)));
}

} // verus!
