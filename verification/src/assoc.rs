//! Association lists: a sequence of key/value pairs with distinct keys read
//! as a finite map. The ordered maps of this crate keep their entries in
//! such a sequence.
use vstd::prelude::*;

verus! {

/// Values that keep an invariant of their own (a map inside a map, say).
pub trait WellFormed {
    spec fn well_formed(&self) -> bool;
}

impl WellFormed for u64 {
    open spec fn well_formed(&self) -> bool {
        true
    }
}

impl WellFormed for () {
    open spec fn well_formed(&self) -> bool {
        true
    }
}

/// The map that a sequence of pairs stands for.
pub open spec fn pairs_to_map<K, W>(ps: Seq<(K, W)>) -> Map<K, W> {
    Map::new(
        |k: K| exists|i: int| 0 <= i < ps.len() && #[trigger] ps[i].0 == k,
        |k: K| ps[choose|i: int| 0 <= i < ps.len() && #[trigger] ps[i].0 == k].1,
    )
}

/// No key occurs twice.
pub open spec fn distinct_keys<K, W>(ps: Seq<(K, W)>) -> bool {
    forall|i: int, j: int|
        0 <= i < ps.len() && 0 <= j < ps.len() && i != j ==> #[trigger] ps[i].0 != #[trigger] ps[j].0
}

/// `k` is the key of no pair.
pub open spec fn key_absent<K, W>(ps: Seq<(K, W)>, k: K) -> bool {
    forall|i: int| 0 <= i < ps.len() ==> #[trigger] ps[i].0 != k
}

pub proof fn lemma_lookup<K, W>(ps: Seq<(K, W)>, i: int)
    requires
        distinct_keys(ps),
        0 <= i < ps.len(),
    ensures
        pairs_to_map(ps).contains_key(ps[i].0),
        pairs_to_map(ps)[ps[i].0] == ps[i].1,
{
    let k = ps[i].0;
    assert(exists|j: int| 0 <= j < ps.len() && #[trigger] ps[j].0 == k);
    let j = choose|j: int| 0 <= j < ps.len() && #[trigger] ps[j].0 == k;
    assert(i == j);
}

pub proof fn lemma_absent<K, W>(ps: Seq<(K, W)>, k: K)
    requires
        key_absent(ps, k),
    ensures
        !pairs_to_map(ps).contains_key(k),
{
}

pub proof fn lemma_present_index<K, W>(ps: Seq<(K, W)>, k: K) -> (i: int)
    requires
        pairs_to_map(ps).contains_key(k),
    ensures
        0 <= i < ps.len(),
        ps[i].0 == k,
{
    choose|i: int| 0 <= i < ps.len() && #[trigger] ps[i].0 == k
}

pub proof fn lemma_remove<K, W>(ps: Seq<(K, W)>, i: int)
    requires
        distinct_keys(ps),
        0 <= i < ps.len(),
    ensures
        distinct_keys(ps.remove(i)),
        pairs_to_map(ps.remove(i)) == pairs_to_map(ps).remove(ps[i].0),
{
    let qs = ps.remove(i);
    let k = ps[i].0;
    assert forall|a: int, b: int|
        0 <= a < qs.len() && 0 <= b < qs.len() && a != b implies #[trigger] qs[a].0 != #[trigger] qs[b].0 by {
        let a2 = if a < i { a } else { a + 1 };
        let b2 = if b < i { b } else { b + 1 };
        assert(qs[a] == ps[a2]);
        assert(qs[b] == ps[b2]);
    }
    let m = pairs_to_map(ps).remove(k);
    let n = pairs_to_map(qs);
    assert forall|x: K| #[trigger] n.contains_key(x) <==> m.contains_key(x) by {
        if n.contains_key(x) {
            let a = lemma_present_index(qs, x);
            let a2 = if a < i { a } else { a + 1 };
            assert(qs[a] == ps[a2]);
            lemma_lookup(ps, a2);
        }
        if m.contains_key(x) {
            let a = lemma_present_index(ps, x);
            assert(a != i);
            let a2 = if a < i { a } else { a - 1 };
            assert(qs[a2] == ps[a]);
        }
    }
    assert forall|x: K| #[trigger] n.contains_key(x) implies n[x] == m[x] by {
        let a = lemma_present_index(qs, x);
        let a2 = if a < i { a } else { a + 1 };
        assert(qs[a] == ps[a2]);
        lemma_lookup(qs, a);
        lemma_lookup(ps, a2);
    }
    assert(n =~= m);
}

pub proof fn lemma_update<K, W>(ps: Seq<(K, W)>, i: int, w: W)
    requires
        distinct_keys(ps),
        0 <= i < ps.len(),
    ensures
        distinct_keys(ps.update(i, (ps[i].0, w))),
        pairs_to_map(ps.update(i, (ps[i].0, w))) == pairs_to_map(ps).insert(ps[i].0, w),
{
    let k = ps[i].0;
    let qs = ps.update(i, (k, w));
    assert forall|a: int, b: int|
        0 <= a < qs.len() && 0 <= b < qs.len() && a != b implies #[trigger] qs[a].0 != #[trigger] qs[b].0 by {
        assert(qs[a].0 == ps[a].0);
        assert(qs[b].0 == ps[b].0);
    }
    let m = pairs_to_map(ps).insert(k, w);
    let n = pairs_to_map(qs);
    assert forall|x: K| #[trigger] n.contains_key(x) <==> m.contains_key(x) by {
        if n.contains_key(x) {
            let a = lemma_present_index(qs, x);
            assert(qs[a].0 == ps[a].0);
            lemma_lookup(ps, a);
        }
        if m.contains_key(x) {
            if x == k {
                assert(qs[i].0 == k);
            } else {
                let a = lemma_present_index(ps, x);
                assert(qs[a].0 == ps[a].0);
            }
        }
    }
    assert forall|x: K| #[trigger] n.contains_key(x) implies n[x] == m[x] by {
        let a = lemma_present_index(qs, x);
        lemma_lookup(qs, a);
        if a != i {
            assert(qs[a] == ps[a]);
            lemma_lookup(ps, a);
        }
    }
    assert(n =~= m);
}

pub proof fn lemma_insert_new<K, W>(ps: Seq<(K, W)>, p: int, k: K, w: W)
    requires
        distinct_keys(ps),
        key_absent(ps, k),
        0 <= p <= ps.len(),
    ensures
        distinct_keys(ps.insert(p, (k, w))),
        pairs_to_map(ps.insert(p, (k, w))) == pairs_to_map(ps).insert(k, w),
{
    let qs = ps.insert(p, (k, w));
    assert forall|a: int, b: int|
        0 <= a < qs.len() && 0 <= b < qs.len() && a != b implies #[trigger] qs[a].0 != #[trigger] qs[b].0 by {
        if a != p && b != p {
            let a2 = if a < p { a } else { a - 1 };
            let b2 = if b < p { b } else { b - 1 };
            assert(qs[a] == ps[a2]);
            assert(qs[b] == ps[b2]);
        } else if a == p {
            let b2 = if b < p { b } else { b - 1 };
            assert(qs[b] == ps[b2]);
        } else {
            let a2 = if a < p { a } else { a - 1 };
            assert(qs[a] == ps[a2]);
        }
    }
    let m = pairs_to_map(ps).insert(k, w);
    let n = pairs_to_map(qs);
    assert forall|x: K| #[trigger] n.contains_key(x) <==> m.contains_key(x) by {
        if n.contains_key(x) && x != k {
            let a = lemma_present_index(qs, x);
            assert(a != p);
            let a2 = if a < p { a } else { a - 1 };
            assert(qs[a] == ps[a2]);
        }
        if m.contains_key(x) {
            if x == k {
                assert(qs[p].0 == k);
            } else {
                let a = lemma_present_index(ps, x);
                let a2 = if a < p { a } else { a + 1 };
                assert(qs[a2] == ps[a]);
            }
        }
    }
    assert forall|x: K| #[trigger] n.contains_key(x) implies n[x] == m[x] by {
        let a = lemma_present_index(qs, x);
        lemma_lookup(qs, a);
        if a != p {
            let a2 = if a < p { a } else { a - 1 };
            assert(qs[a] == ps[a2]);
            lemma_lookup(ps, a2);
        }
    }
    assert(n =~= m);
}

pub proof fn lemma_dom_len<K, W>(ps: Seq<(K, W)>)
    requires
        distinct_keys(ps),
    ensures
        pairs_to_map(ps).dom().finite(),
        pairs_to_map(ps).dom().len() == ps.len(),
    decreases ps.len(),
{
    if ps.len() == 0 {
        assert(pairs_to_map(ps).dom() =~= Set::empty());
    } else {
        let last = ps.len() - 1;
        let qs = ps.remove(last);
        lemma_remove(ps, last);
        lemma_dom_len(qs);
        lemma_lookup(ps, last);
        assert(pairs_to_map(qs).dom() =~= pairs_to_map(ps).dom().remove(ps[last].0));
    }
}

} // verus!
